use vstd::prelude::*;
use crate::error::Error;
use crate::text::str_eq;

verus! {

/// How a fired trigger is to be read: as good news, a warning or an
/// error. `NoEvent` classifies nothing and is used as a neutral value.
#[derive(Debug, Eq, PartialEq, Structural, Copy, Clone)]
pub enum TriggerType {
    NoEvent,
    Success,
    Warning,
    Error,
}

impl TriggerType {
    /// The classification a lower-case name stands for; `NoEvent` has
    /// no name and anything unknown is a `FromStringError`.
    pub open spec fn spec_from_str(s: Seq<char>) -> Result<TriggerType, Error> {
        if s == "success"@ {
            Ok(TriggerType::Success)
        } else if s == "warning"@ {
            Ok(TriggerType::Warning)
        } else if s == "error"@ {
            Ok(TriggerType::Error)
        } else {
            Err(Error::FromStringError)
        }
    }

    /// Reads a classification from its lower-case name.
    pub fn from_str(s: &str) -> (r: Result<TriggerType, Error>)
        ensures
            r == TriggerType::spec_from_str(s@),
    {
        if str_eq(s, "success") {
            Ok(TriggerType::Success)
        } else if str_eq(s, "warning") {
            Ok(TriggerType::Warning)
        } else if str_eq(s, "error") {
            Ok(TriggerType::Error)
        } else {
            Err(Error::FromStringError)
        }
    }
}

/// Whether `regex::Regex::new` accepts the pattern: a function of the
/// pattern alone (valid syntax, within the default size limit).
pub uninterp spec fn regex_valid(pattern: Seq<char>) -> bool;

/// Whether the pattern matches anywhere in the text: a function of the
/// two strings alone.
pub uninterp spec fn re_is_match(pattern: Seq<char>, text: Seq<char>) -> bool;

/// The first (leftmost) match of the pattern in the text, meaningful
/// where `re_is_match` holds: a function of the two strings alone.
pub uninterp spec fn re_find(pattern: Seq<char>, text: Seq<char>) -> Seq<char>;

/// Relies on regex::Regex::new: whether compilation succeeds depends
/// on the pattern alone.
#[verifier::external_body]
pub(crate) fn regex_compiles(pattern: &str) -> (r: bool)
    ensures
        r == regex_valid(pattern@),
{
    regex::Regex::new(pattern).is_ok()
}

/// Relies on regex::Regex::new and regex::Regex::is_match: compilation
/// succeeds exactly where `regex_valid` holds, and whether the compiled
/// pattern matches somewhere in the text depends on the pattern and the
/// text alone.
#[verifier::external_body]
fn regex_match(pattern: &str, text: &str) -> (r: Result<bool, Error>)
    ensures
        (match r {
            Ok(b) => regex_valid(pattern@) && b == re_is_match(pattern@, text@),
            Err(e) => !regex_valid(pattern@) && e == Error::RegexError,
        }),
{
    match regex::Regex::new(pattern) {
        Ok(re) => Ok(re.is_match(text)),
        Err(_) => Err(Error::RegexError),
    }
}

/// Relies on regex::Regex::new and regex::Regex::find: the leftmost
/// match depends on the pattern and the text alone, and one exists
/// exactly where `re_is_match` holds.
#[verifier::external_body]
fn regex_find(pattern: &str, text: &str) -> (r: Result<Option<String>, Error>)
    ensures
        (match r {
            Ok(o) => regex_valid(pattern@) && (o is Some <==> re_is_match(pattern@, text@)) && (
            o matches Some(m) ==> m@ == re_find(pattern@, text@)),
            Err(e) => !regex_valid(pattern@) && e == Error::RegexError,
        }),
{
    match regex::Regex::new(pattern) {
        Ok(re) => Ok(re.find(text).map(|m| m.as_str().to_string())),
        Err(_) => Err(Error::RegexError),
    }
}

/// The raw matched span that `slice` reports: the leftmost match, or
/// the empty string where the pattern does not match. `invert` plays
/// no part here.
pub open spec fn spec_slice(pattern: Seq<char>, text: Seq<char>) -> Seq<char> {
    if re_is_match(pattern, text) {
        re_find(pattern, text)
    } else {
        Seq::<char>::empty()
    }
}

/// A text classifier built on a regular expression: it fires where the
/// pattern matches, or, with `invert` set, where it does not.
#[derive(Clone)]
pub struct RegexTrigger {
    pub name: String,
    pub description: String,
    pub trigger_type: TriggerType,
    pub re: String,
    pub invert: bool,
}

impl RegexTrigger {
    pub fn new(name: &str, description: &str, trigger_type: TriggerType, re: &str, invert: bool)
        -> (r: Self)
        ensures
            r.name@ == name@,
            r.description@ == description@,
            r.trigger_type == trigger_type,
            r.re@ == re@,
            r.invert == invert,
    {
        Self {
            name: String::from_str(name),
            description: String::from_str(description),
            trigger_type,
            re: String::from_str(re),
            invert,
        }
    }

    /// A trigger equal to this one.
    pub fn duplicate(&self) -> (r: Self)
        ensures
            r == *self,
    {
        Self {
            name: self.name.clone(),
            description: self.description.clone(),
            trigger_type: self.trigger_type,
            re: self.re.clone(),
            invert: self.invert,
        }
    }

    pub fn name(&self) -> (r: &str)
        ensures
            r@ == self.name@,
    {
        self.name.as_str()
    }

    pub fn description(&self) -> (r: &str)
        ensures
            r@ == self.description@,
    {
        self.description.as_str()
    }

    /// Whether the trigger fires on this text: the pattern's match
    /// result, flipped where `invert` is set. Fails exactly where the
    /// pattern does not compile.
    pub fn check(&self, text: &str) -> (r: Result<bool, Error>)
        ensures
            r is Ok <==> regex_valid(self.re@),
            r matches Ok(b) ==> b == (re_is_match(self.re@, text@) != self.invert),
            r is Err ==> r == Err::<bool, Error>(Error::RegexError),
    {
        match regex_match(self.re.as_str(), text) {
            Ok(m) => Ok(m != self.invert),
            Err(e) => Err(e),
        }
    }

    /// The raw span that fired the pattern, always uninverted: the
    /// leftmost match, or the empty string where nothing matches.
    /// Fails exactly where the pattern does not compile.
    pub fn slice(&self, text: &str) -> (r: Result<String, Error>)
        ensures
            r is Ok <==> regex_valid(self.re@),
            r matches Ok(s) ==> s@ == spec_slice(self.re@, text@),
            r is Err ==> r == Err::<String, Error>(Error::RegexError),
    {
        match regex_find(self.re.as_str(), text) {
            Ok(Some(m)) => Ok(m),
            Ok(None) => Ok(String::new()),
            Err(e) => Err(e),
        }
    }

    pub fn get_type(&self) -> (r: TriggerType)
        ensures
            r == self.trigger_type,
    {
        self.trigger_type
    }
}

/// The closed set of trigger kinds a logfile can carry.
#[derive(Clone)]
pub enum TriggerTypes {
    Regex(RegexTrigger),
}

impl TriggerTypes {
    /// The pattern the trigger matches with.
    pub open spec fn spec_pattern(self) -> Seq<char> {
        match self {
            TriggerTypes::Regex(t) => t.re@,
        }
    }

    /// Whether the trigger's match result is flipped.
    pub open spec fn spec_invert(self) -> bool {
        match self {
            TriggerTypes::Regex(t) => t.invert,
        }
    }

    /// The trigger's name.
    pub open spec fn spec_name(self) -> Seq<char> {
        match self {
            TriggerTypes::Regex(t) => t.name@,
        }
    }

    /// The trigger's description.
    pub open spec fn spec_description(self) -> Seq<char> {
        match self {
            TriggerTypes::Regex(t) => t.description@,
        }
    }

    /// The trigger's classification.
    pub open spec fn spec_type(self) -> TriggerType {
        match self {
            TriggerTypes::Regex(t) => t.trigger_type,
        }
    }

    /// The pattern compiles.
    pub open spec fn spec_ok(self) -> bool {
        regex_valid(self.spec_pattern())
    }

    /// What `check` reports where the pattern compiles.
    pub open spec fn spec_fires(self, text: Seq<char>) -> bool {
        re_is_match(self.spec_pattern(), text) != self.spec_invert()
    }

    /// A trigger equal to this one.
    pub fn duplicate(&self) -> (r: Self)
        ensures
            r == *self,
    {
        match self {
            TriggerTypes::Regex(t) => TriggerTypes::Regex(t.duplicate()),
        }
    }

    pub fn name(&self) -> (r: &str)
        ensures
            r@ == self.spec_name(),
    {
        match self {
            TriggerTypes::Regex(t) => t.name(),
        }
    }

    pub fn description(&self) -> (r: &str)
        ensures
            r@ == self.spec_description(),
    {
        match self {
            TriggerTypes::Regex(t) => t.description(),
        }
    }

    /// Whether the trigger fires on this text; fails exactly where the
    /// pattern does not compile.
    pub fn check(&self, text: &str) -> (r: Result<bool, Error>)
        ensures
            r is Ok <==> self.spec_ok(),
            r matches Ok(b) ==> b == self.spec_fires(text@),
            r is Err ==> r == Err::<bool, Error>(Error::RegexError),
    {
        match self {
            TriggerTypes::Regex(t) => t.check(text),
        }
    }

    /// The raw span that fired the trigger, unaffected by `invert`.
    pub fn slice(&self, text: &str) -> (r: Result<String, Error>)
        ensures
            r is Ok <==> self.spec_ok(),
            r matches Ok(s) ==> s@ == spec_slice(self.spec_pattern(), text@),
            r is Err ==> r == Err::<String, Error>(Error::RegexError),
    {
        match self {
            TriggerTypes::Regex(t) => t.slice(text),
        }
    }

    pub fn get_type(&self) -> (r: TriggerType)
        ensures
            r == self.spec_type(),
    {
        match self {
            TriggerTypes::Regex(t) => t.get_type(),
        }
    }
}

} // verus!
