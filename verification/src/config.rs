//! The profile record: a name and its two ordered command lists.

use vstd::prelude::*;

verus! {

/// A loaded profile: the caller-supplied name and the `before`/`after`
/// command lists its configuration document holds.  Each list's first
/// element is the executable, the rest are its arguments; an empty list
/// means "no step".
#[derive(Debug)]
pub struct RunConfig {
    pub name: String,
    pub before: Vec<String>,
    pub after: Vec<String>,
}

/// The two fields of a profile's configuration document, before the
/// profile's name is attached.
#[derive(Debug)]
pub struct RunConfigSer {
    pub before: Vec<String>,
    pub after: Vec<String>,
}

/// Mathematical model of a profile.
pub struct RunConfigModel {
    pub name: Seq<char>,
    pub before: Seq<Seq<char>>,
    pub after: Seq<Seq<char>>,
}

impl View for RunConfig {
    type V = RunConfigModel;

    open spec fn view(&self) -> RunConfigModel {
        RunConfigModel {
            name: self.name@,
            before: self.before.deep_view(),
            after: self.after.deep_view(),
        }
    }
}

impl RunConfigSer {
    /// Attach the caller-supplied profile name, yielding the full profile.
    /// The name is taken exactly as given; the command lists are unchanged.
    pub fn fill(self, name: String) -> (cfg: RunConfig)
        ensures
            cfg@.name == name@,
            cfg@.before == self.before.deep_view(),
            cfg@.after == self.after.deep_view(),
    {
        let RunConfigSer { before, after } = self;
        RunConfig { name, before, after }
    }
}

} // verus!
