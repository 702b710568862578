//! The result of a parse, its mathematical model, and the errors of a parse.
use vstd::prelude::*;

use crate::text::same_text;

verus! {

/// What a parse collects: option values keyed by argument name (one entry per
/// name), the names of the flags that appeared (each once), and the positional
/// tokens in input order.
pub struct Collected {
    pub values: Seq<(String, String)>,
    pub flags: Seq<String>,
    pub positionals: Seq<String>,
}

/// Nothing collected yet.
pub open spec fn empty_collected() -> Collected {
    Collected { values: Seq::empty(), flags: Seq::empty(), positionals: Seq::empty() }
}

/// Index of the first entry at or after `i` whose key is `key`.
pub open spec fn key_index(values: Seq<(String, String)>, key: Seq<char>, i: int) -> Option<int>
    decreases values.len() - i,
{
    if i < 0 || i >= values.len() {
        None
    } else if values[i].0@ == key {
        Some(i)
    } else {
        key_index(values, key, i + 1)
    }
}

/// The value stored under `key`, if any.
pub open spec fn lookup(values: Seq<(String, String)>, key: Seq<char>) -> Option<String> {
    match key_index(values, key, 0) {
        Some(i) => Some(values[i].1),
        None => None,
    }
}

/// `values` with `key` bound to `value`: an existing entry for `key` is
/// overwritten in place, otherwise the entry is appended.
pub open spec fn put(values: Seq<(String, String)>, key: String, value: String) -> Seq<(String, String)> {
    match key_index(values, key@, 0) {
        Some(i) => values.update(i, (key, value)),
        None => values.push((key, value)),
    }
}

/// Whether a flag named `name` is recorded in `flags`.
pub open spec fn has_flag(flags: Seq<String>, name: Seq<char>) -> bool {
    exists|i: int| 0 <= i < flags.len() && #[trigger] flags[i]@ == name
}

/// `flags` with `name` recorded; unchanged when it already is.
pub open spec fn add_flag(flags: Seq<String>, name: String) -> Seq<String> {
    if has_flag(flags, name@) {
        flags
    } else {
        flags.push(name)
    }
}

/// The errors of a parse, as values.
pub enum Failure {
    InvalidValue(Seq<char>),
    MissingRequiredArgument(Seq<char>),
}

/// Why a parse failed.
#[derive(Debug, Clone, PartialEq, Eq)]
pub enum ParseError {
    /// A supplied value was rejected by its validator; holds the long alias
    /// (matched by `--`) or the short character (matched by `-`).
    InvalidValue(String),
    /// A required valued argument got neither a value nor a default; holds the
    /// argument's name.
    MissingRequiredArgument(String),
}

impl ParseError {
    pub open spec fn view(&self) -> Failure {
        match self {
            ParseError::InvalidValue(s) => Failure::InvalidValue(s@),
            ParseError::MissingRequiredArgument(s) => Failure::MissingRequiredArgument(s@),
        }
    }
}

/// The structured result of a successful parse.
#[derive(Debug, Clone)]
pub struct ArgMatches {
    /// Values of valued options, one entry per argument name.
    pub values: Vec<(String, String)>,
    /// Names of the boolean flags that appeared, each once.
    pub flags: Vec<String>,
    /// Tokens not recognised as options, option values or a subcommand.
    pub positionals: Vec<String>,
}

impl ArgMatches {
    pub open spec fn view(&self) -> Collected {
        Collected { values: self.values@, flags: self.flags@, positionals: self.positionals@ }
    }

    /// Nothing collected.
    pub(crate) fn empty() -> (r: ArgMatches)
        ensures
            r@ == empty_collected(),
    {
        let r = ArgMatches { values: Vec::new(), flags: Vec::new(), positionals: Vec::new() };
        assert(r@.values =~= Seq::empty());
        assert(r@.flags =~= Seq::empty());
        assert(r@.positionals =~= Seq::empty());
        r
    }

    /// Position in `values` of the entry for `name`.
    fn value_index(&self, name: &str) -> (r: Option<usize>)
        ensures
            match r {
                Some(i) => i < self.values@.len() && key_index(self.values@, name@, 0) == Some(i as int),
                None => key_index(self.values@, name@, 0) is None,
            },
    {
        let mut i: usize = 0;
        while i < self.values.len()
            invariant
                i <= self.values.len(),
                key_index(self.values@, name@, 0) == key_index(self.values@, name@, i as int),
            decreases self.values.len() - i,
        {
            if same_text(self.values[i].0.as_str(), name) {
                return Some(i);
            }
            i = i + 1;
        }
        None
    }

    /// The value stored for argument `name`.
    pub fn value_of(&self, name: &str) -> (r: Option<&String>)
        ensures
            match lookup(self@.values, name@) {
                Some(v) => r == Some(&v),
                None => r is None,
            },
    {
        match self.value_index(name) {
            Some(i) => Some(&self.values[i].1),
            None => None,
        }
    }

    /// Whether flag `name` appeared.
    pub fn is_set(&self, name: &str) -> (r: bool)
        ensures
            r == has_flag(self@.flags, name@),
    {
        let mut i: usize = 0;
        while i < self.flags.len()
            invariant
                i <= self.flags.len(),
                forall|k: int| 0 <= k < i ==> self.flags@[k]@ != name@,
            decreases self.flags.len() - i,
        {
            if same_text(self.flags[i].as_str(), name) {
                return true;
            }
            i = i + 1;
        }
        false
    }

    /// Binds `key` to `value`, overwriting an earlier value for `key`.
    pub(crate) fn put_value(&mut self, key: &String, value: &String)
        ensures
            final(self)@ == (Collected { values: put(old(self)@.values, *key, *value), ..old(self)@ }),
    {
        match self.value_index(key.as_str()) {
            Some(i) => {
                self.values.set(i, (key.clone(), value.clone()));
            },
            None => {
                self.values.push((key.clone(), value.clone()));
            },
        }
    }

    /// Records flag `name`.
    pub(crate) fn set_flag(&mut self, name: &String)
        ensures
            final(self)@ == (Collected { flags: add_flag(old(self)@.flags, *name), ..old(self)@ }),
    {
        if !self.is_set(name.as_str()) {
            self.flags.push(name.clone());
        }
    }

    /// Appends a positional token.
    pub(crate) fn push_positional(&mut self, token: &String)
        ensures
            final(self)@ == (Collected { positionals: old(self)@.positionals.push(*token), ..old(self)@ }),
    {
        self.positionals.push(token.clone());
    }
}

} // verus!
