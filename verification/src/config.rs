//! Per-processor configuration: a mapping from option name to option value,
//! supplied externally, and the validation every processor runs before its
//! worker starts.

use vstd::prelude::*;

verus! {

/// One processor's configuration: option names and their values.
#[derive(Debug)]
pub struct Config {
    pub entries: Vec<(String, String)>,
}

/// The value stored under `k`, at the first match.
pub open spec fn cfg_get(entries: Seq<(String, String)>, k: Seq<char>) -> Option<String>
    decreases entries.len(),
{
    if entries.len() == 0 {
        None
    } else if entries[0].0@ == k {
        Some(entries[0].1)
    } else {
        cfg_get(entries.drop_first(), k)
    }
}

/// Whether the configuration names the option `k`.
pub open spec fn cfg_has(c: Config, k: Seq<char>) -> bool {
    cfg_get(c.entries@, k) is Some
}

/// Whether the option `k` is missing, counting an absent configuration as
/// missing every option.
pub open spec fn absent(config: Option<Config>, k: Seq<char>) -> bool {
    match config {
        None => true,
        Some(c) => !cfg_has(c, k),
    }
}

impl Config {
    /// An empty configuration.
    pub fn new() -> (r: Config)
        ensures
            r.entries@.len() == 0,
    {
        Config { entries: Vec::new() }
    }

    /// Adds one option.
    pub fn add(&mut self, name: String, value: String)
        ensures
            final(self).entries@ == old(self).entries@.push((name, value)),
    {
        self.entries.push((name, value));
    }

    /// The value of the option `name`, if the configuration has it.
    pub fn get_opt(&self, name: &str) -> (r: Option<&String>)
        ensures
            match r {
                Some(v) => cfg_get(self.entries@, name@) == Some(*v),
                None => !cfg_has(*self, name@),
            },
    {
        let name_string = String::from_str(name);
        let mut i: usize = 0;
        proof {
            assert(self.entries@.skip(0) =~= self.entries@);
        }
        while i < self.entries.len()
            invariant
                i <= self.entries@.len(),
                name_string@ == name@,
                cfg_get(self.entries@, name@) == cfg_get(self.entries@.skip(i as int), name@),
            decreases self.entries@.len() - i,
        {
            proof {
                assert(self.entries@.skip(i as int)[0] == self.entries@[i as int]);
                assert(self.entries@.skip(i as int).drop_first() =~= self.entries@.skip(i + 1));
            }
            if self.entries[i].0 == name_string {
                return Some(&self.entries[i].1);
            }
            i = i + 1;
        }
        None
    }

    /// Whether the configuration names the option.
    pub fn contains_opt(&self, name: &str) -> (r: bool)
        ensures
            r == cfg_has(*self, name@),
    {
        self.get_opt(name).is_some()
    }
}

/// A configuration that does not name every mandatory option of a processor:
/// the processor's name and exactly the options it still needs.
#[derive(Debug)]
pub struct ConfigError {
    pub processor: String,
    pub missing: Vec<String>,
}

/// The mandatory options that a configuration does not name, in declared
/// order, counting an absent configuration as missing every one.
pub open spec fn spec_missing(config: Option<Config>, mandatory: Seq<&str>) -> Seq<Seq<char>>
    decreases mandatory.len(),
{
    if mandatory.len() == 0 {
        seq![]
    } else {
        let rest = spec_missing(config, mandatory.drop_first());
        if absent(config, mandatory[0]@) {
            seq![mandatory[0]@] + rest
        } else {
            rest
        }
    }
}


/// The mandatory option names that a configuration does not name, in
/// declared order, counting an absent configuration as missing every one.
pub open spec fn spec_missing_names(config: Option<Config>, names: Seq<Seq<char>>) -> Seq<
    Seq<char>,
>
    decreases names.len(),
{
    if names.len() == 0 {
        seq![]
    } else {
        let rest = spec_missing_names(config, names.drop_first());
        if absent(config, names[0]) {
            seq![names[0]] + rest
        } else {
            rest
        }
    }
}

/// The two forms of the missing-options list agree when the name sequences
/// agree pointwise.
pub proof fn lemma_spec_missing_names(
    config: Option<Config>,
    mandatory: Seq<&str>,
    names: Seq<Seq<char>>,
)
    requires
        mandatory.len() == names.len(),
        forall|i: int| 0 <= i < mandatory.len() ==> (#[trigger] mandatory[i])@ == names[i],
    ensures
        spec_missing(config, mandatory) == spec_missing_names(config, names),
    decreases mandatory.len(),
{
    if mandatory.len() > 0 {
        assert forall|i: int|
            0 <= i < mandatory.drop_first().len() implies (#[trigger] mandatory.drop_first()[i])@
            == names.drop_first()[i] by {
            assert(mandatory.drop_first()[i] == mandatory[i + 1]);
        }
        lemma_spec_missing_names(config, mandatory.drop_first(), names.drop_first());
    }
}

/// Checks a processor's configuration before its worker starts: fails unless
/// the configuration is present and names every mandatory option, and names
/// the missing options and the processor in the error.
pub fn requires_fields(name: &str, config: &Option<Config>, mandatory: &Vec<&str>) -> (r: Result<
    (),
    ConfigError,
>)
    ensures
        (r is Ok) <==> (*config is Some && spec_missing(*config, mandatory@).len() == 0),
        r matches Err(e) ==> e.processor@ == name@ && e.missing@.len() == spec_missing(
            *config,
            mandatory@,
        ).len() && forall|j: int|
            0 <= j < e.missing@.len() ==> (#[trigger] e.missing@[j])@ == spec_missing(
                *config,
                mandatory@,
            )[j],
{
    let mut missing: Vec<String> = Vec::new();
    let ghost mut gviews: Seq<Seq<char>> = seq![];
    let mut i: usize = 0;
    proof {
        assert(mandatory@.skip(0) =~= mandatory@);
        assert(gviews + spec_missing(*config, mandatory@) =~= spec_missing(*config, mandatory@));
    }
    while i < mandatory.len()
        invariant
            i <= mandatory@.len(),
            gviews.len() == missing@.len(),
            forall|j: int| 0 <= j < missing@.len() ==> gviews[j] == (#[trigger] missing@[j])@,
            gviews + spec_missing(*config, mandatory@.skip(i as int)) == spec_missing(
                *config,
                mandatory@,
            ),
        decreases mandatory@.len() - i,
    {
        let present = match config {
            Some(c) => c.contains_opt(mandatory[i]),
            None => false,
        };
        proof {
            let tail = mandatory@.skip(i as int);
            assert(tail[0] == mandatory@[i as int]);
            assert(tail.drop_first() =~= mandatory@.skip(i + 1));
            assert(present == !absent(*config, mandatory@[i as int]@));
        }
        if !present {
            missing.push(String::from_str(mandatory[i]));
            proof {
                let m = mandatory@[i as int]@;
                let old_gviews = gviews;
                gviews = gviews.push(m);
                assert(gviews + spec_missing(*config, mandatory@.skip(i + 1)) =~= old_gviews + (
                seq![m] + spec_missing(*config, mandatory@.skip(i + 1))));
            }
        }
        i = i + 1;
    }
    proof {
        assert(mandatory@.skip(mandatory@.len() as int) =~= Seq::<&str>::empty());
        assert(gviews + spec_missing(*config, mandatory@.skip(mandatory@.len() as int))
            =~= gviews);
    }
    if missing.len() == 0 {
        match config {
            Some(_) => Ok(()),
            None => Err(ConfigError { processor: String::from_str(name), missing }),
        }
    } else {
        Err(ConfigError { processor: String::from_str(name), missing })
    }
}

} // verus!
