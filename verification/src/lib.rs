//! A small log-shipping pipeline: input processors produce serialized log
//! lines, a transform stage normalizes them into a canonical event shape, and
//! output processors deliver the normalized events to a sink.

mod codec;
mod config;
mod filters;
mod inputs;
mod json;
mod outputs;
mod processor;

pub use processor::consumer_step;
pub use processor::producer_step;
pub use processor::ConfigurableFilter;
pub use processor::ConsumerAction;
pub use processor::ProducerAction;
pub use processor::RecvOutcome;
pub use processor::SendOutcome;
pub use config::requires_fields;
pub use config::Config;
pub use config::ConfigError;
pub use codec::parse_record;
pub use codec::record_to_string;
pub use codec::DecodeError;
pub use filters::int_to_level;
pub use filters::time_to_index_name;
pub use filters::transform;
pub use filters::TransformError;
pub use inputs::random::parse_fieldlist;
pub use inputs::random::produce_line;
pub use inputs::random::typeize;
pub use inputs::random::FieldKind;
pub use inputs::random::Random;
pub use inputs::random::RandomPlan;
pub use outputs::elasticsearch::build_url;
pub use outputs::elasticsearch::parse_u32;
pub use outputs::elasticsearch::prepare_request;
pub use outputs::elasticsearch::process_line;
pub use outputs::elasticsearch::Elasticsearch;
pub use outputs::elasticsearch::EsPlan;
pub use outputs::elasticsearch::IndexRequest;
pub use outputs::elasticsearch::LineError;
pub use outputs::elasticsearch::StartError;
pub use json::JVal;
pub use json::Record;
