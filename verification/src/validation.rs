//! The request-validation gate: a decoded payload is checked against
//! its field constraints before it is trusted, and every violated rule
//! is reported — not just the first.
//!
//! Decoding a raw payload into the typed command (and rejecting
//! malformed input) is the transport layer's job; this gate is the
//! second, independent failure mode: the payload parsed, but a field
//! constraint does not hold.

use vstd::prelude::*;

use crate::repositories::label::CreateLabel;
use crate::repositories::todo::{CreateTodo, UpdateTodo};

verus! {

/// A text field is valid when it holds between 1 and 100 characters.
pub open spec fn text_len_valid(s: Seq<char>) -> bool {
    1 <= s.len() <= 100
}

/// A command that knows its own field constraints.
pub trait Validate: Sized {
    /// Whether every field constraint holds.
    spec fn valid(&self) -> bool;

    /// The messages of the violated rules, in rule order.
    spec fn violations(&self) -> Seq<Seq<char>>;

    /// Checks the field constraints; a rejection aggregates every
    /// violated rule.
    fn validate(&self) -> (r: Result<(), Vec<String>>)
        ensures
            r is Ok <==> self.valid(),
            r is Ok <==> self.violations().len() == 0,
            r matches Err(msgs) ==> {
                &&& msgs@.map_values(|m: String| m@) == self.violations()
                &&& msgs@.len() > 0
            },
    ;
}

impl Validate for CreateTodo {
    open spec fn valid(&self) -> bool {
        text_len_valid(self.text@)
    }

    open spec fn violations(&self) -> Seq<Seq<char>> {
        let short: Seq<Seq<char>> = if self.text@.len() < 1 {
            seq!["Can not be empty"@]
        } else {
            seq![]
        };
        let long: Seq<Seq<char>> = if self.text@.len() > 100 {
            seq!["Over text length"@]
        } else {
            seq![]
        };
        short + long
    }

    fn validate(&self) -> (r: Result<(), Vec<String>>) {
        let n = self.text.as_str().unicode_len();
        let mut msgs: Vec<String> = Vec::new();
        if n < 1 {
            msgs.push("Can not be empty".to_owned());
        }
        if n > 100 {
            msgs.push("Over text length".to_owned());
        }
        if msgs.len() == 0 {
            proof {
                assert(self.violations() =~= Seq::<Seq<char>>::empty());
            }
            Ok(())
        } else {
            proof {
                assert(msgs@.map_values(|m: String| m@) =~= self.violations());
            }
            Err(msgs)
        }
    }
}

impl Validate for UpdateTodo {
    open spec fn valid(&self) -> bool {
        match self.text {
            Some(t) => text_len_valid(t@),
            None => true,
        }
    }

    open spec fn violations(&self) -> Seq<Seq<char>> {
        match self.text {
            Some(t) => {
                let short: Seq<Seq<char>> = if t@.len() < 1 {
                    seq!["Can not be empty"@]
                } else {
                    seq![]
                };
                let long: Seq<Seq<char>> = if t@.len() > 100 {
                    seq!["over text length"@]
                } else {
                    seq![]
                };
                short + long
            },
            None => Seq::empty(),
        }
    }

    fn validate(&self) -> (r: Result<(), Vec<String>>) {
        match &self.text {
            None => Ok(()),
            Some(t) => {
                let n = t.as_str().unicode_len();
                let mut msgs: Vec<String> = Vec::new();
                if n < 1 {
                    msgs.push("Can not be empty".to_owned());
                }
                if n > 100 {
                    msgs.push("over text length".to_owned());
                }
                if msgs.len() == 0 {
                    proof {
                        assert(self.violations() =~= Seq::<Seq<char>>::empty());
                    }
                    Ok(())
                } else {
                    proof {
                        assert(msgs@.map_values(|m: String| m@) =~= self.violations());
                    }
                    Err(msgs)
                }
            },
        }
    }
}

impl Validate for CreateLabel {
    open spec fn valid(&self) -> bool {
        text_len_valid(self.name@)
    }

    open spec fn violations(&self) -> Seq<Seq<char>> {
        let short: Seq<Seq<char>> = if self.name@.len() < 1 {
            seq!["Can not be empty"@]
        } else {
            seq![]
        };
        let long: Seq<Seq<char>> = if self.name@.len() > 100 {
            seq!["Over name length"@]
        } else {
            seq![]
        };
        short + long
    }

    fn validate(&self) -> (r: Result<(), Vec<String>>) {
        let n = self.name.as_str().unicode_len();
        let mut msgs: Vec<String> = Vec::new();
        if n < 1 {
            msgs.push("Can not be empty".to_owned());
        }
        if n > 100 {
            msgs.push("Over name length".to_owned());
        }
        if msgs.len() == 0 {
            proof {
                assert(self.violations() =~= Seq::<Seq<char>>::empty());
            }
            Ok(())
        } else {
            proof {
                assert(msgs@.map_values(|m: String| m@) =~= self.violations());
            }
            Err(msgs)
        }
    }
}

/// A payload known to satisfy its field constraints: it decoded into
/// the expected shape and every rule held.
#[derive(Debug)]
pub struct ValidatedJson<T>(pub T);

impl<T: Validate> ValidatedJson<T> {
    /// Wraps the command only when it is valid, otherwise hands back
    /// every violated rule.
    pub fn new(value: T) -> (r: Result<ValidatedJson<T>, Vec<String>>)
        ensures
            r is Ok <==> value.valid(),
            r matches Ok(v) ==> v.0 == value,
            r matches Err(msgs) ==> {
                &&& msgs@.map_values(|m: String| m@) == value.violations()
                &&& msgs@.len() > 0
            },
    {
        match value.validate() {
            Ok(()) => Ok(ValidatedJson(value)),
            Err(msgs) => Err(msgs),
        }
    }

    /// Hands the validated command back out.
    pub fn into_inner(self) -> (value: T)
        ensures
            value == self.0,
    {
        self.0
    }
}

} // verus!
