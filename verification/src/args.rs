use vstd::prelude::*;

verus! {

/// One command-line argument description: its value, help text, long and
/// short names, and whether it must be given.
pub struct Argument {
    pub value: &'static str,
    pub help: String,
    pub long: String,
    pub short: char,
    pub required: bool,
}

impl Argument {
    /// An argument description from its parts.
    pub fn new(value: &'static str, help: &String, long: &String, short: char, required: bool) -> (a:
        Self)
        ensures
            a.value@ == value@,
            a.help@ == help@,
            a.long@ == long@,
            a.short == short,
            a.required == required,
    {
        Self { value, help: help.clone(), long: long.clone(), short, required }
    }
}

} // verus!
