//! The contracts every input/output processor satisfies, and the decisions of
//! the pipeline runtime's worker loops: the backpressure policy of a producer
//! and the termination of a consumer.

use vstd::prelude::*;

verus! {

/// The shared interface of every processor: identity for diagnostics and the
/// configuration options it cannot start without.
pub trait ConfigurableFilter {
    /// The processor's name, as the model of `human_name`.
    spec fn spec_name(&self) -> Seq<char>;

    /// The processor's mandatory option names, as the model of
    /// `mandatory_fields`.
    spec fn spec_mandatory(&self) -> Seq<Seq<char>>;

    /// The processor's name, for diagnostics.
    fn human_name(&self) -> (r: &str)
        ensures
            r@ == self.spec_name(),
    ;

    /// The configuration options the processor cannot start without.
    fn mandatory_fields(&self) -> (r: Vec<&str>)
        ensures
            r@.len() == self.spec_mandatory().len(),
            forall|i: int|
                0 <= i < r@.len() ==> (#[trigger] r@[i])@ == self.spec_mandatory()[i],
    ;
}

/// What one non-blocking send attempt reported.
pub enum SendOutcome {
    /// The line was accepted by the channel.
    Sent,
    /// The channel is at capacity.
    Full,
    /// The receive end is gone.
    Disconnected,
}

/// What the producer does next; it never blocks on a slow consumer.
pub enum ProducerAction {
    /// The line was delivered to the channel; produce the next one.
    Proceed,
    /// The line was dropped; report it (with its content, for auditability)
    /// and produce the next one.
    ReportDrop(String),
}

/// The backpressure policy: a full (or closed) channel drops the line and the
/// drop is reported with the dropped content; production never blocks.
pub fn producer_step(outcome: SendOutcome, line: String) -> (r: ProducerAction)
    ensures
        outcome is Sent ==> r is Proceed,
        !(outcome is Sent) ==> (r matches ProducerAction::ReportDrop(l) && l@ == line@),
{
    match outcome {
        SendOutcome::Sent => ProducerAction::Proceed,
        SendOutcome::Full => ProducerAction::ReportDrop(line),
        SendOutcome::Disconnected => ProducerAction::ReportDrop(line),
    }
}

/// What one blocking receive reported: a line, or end-of-stream after the
/// send end was dropped.
pub enum RecvOutcome {
    Line(String),
    Closed,
}

/// What the consumer does next.
pub enum ConsumerAction {
    /// Process this line and receive again.
    Process(String),
    /// The channel is closed and drained: leave the loop, without error.
    Exit,
}

/// The consume-loop policy: every received line is processed in arrival
/// order, and the loop exits exactly when the channel reports closure.
pub fn consumer_step(outcome: RecvOutcome) -> (r: ConsumerAction)
    ensures
        outcome matches RecvOutcome::Line(l) ==> (r matches ConsumerAction::Process(l2) && l2@
            == l@),
        outcome is Closed <==> r is Exit,
{
    match outcome {
        RecvOutcome::Line(l) => ConsumerAction::Process(l),
        RecvOutcome::Closed => ConsumerAction::Exit,
    }
}

} // verus!
