//! Per-field decode failures and their aggregation into one composite,
//! human-readable report.
//!
//! Each output field's decoding ends in a value or in an [`Error`] naming
//! the field, the path prefix the failure happened at, and a message.
//! [`Errors`] aggregates the failed fields of one decode call: one failure
//! is surfaced verbatim, several become a summary line followed by a
//! numbered list.

use vstd::prelude::*;

use crate::text::{dec_str, usize_to_string};

verus! {

/// One output field's decode failure.
#[derive(Debug)]
pub struct Error {
    pub field: String,
    pub prefix: String,
    pub message: String,
}

/// The mathematical image of an [`Error`].
#[verifier::ext_equal]
pub struct ErrorV {
    pub field: Seq<char>,
    pub prefix: Seq<char>,
    pub message: Seq<char>,
}

impl View for Error {
    type V = ErrorV;

    open spec fn view(&self) -> ErrorV {
        ErrorV { field: self.field@, prefix: self.prefix@, message: self.message@ }
    }
}

impl DeepView for Error {
    type V = ErrorV;

    open spec fn deep_view(&self) -> ErrorV {
        self@
    }
}

impl Clone for Error {
    fn clone(&self) -> (res: Self)
        ensures
            res == *self,
    {
        Error {
            field: self.field.clone(),
            prefix: self.prefix.clone(),
            message: self.message.clone(),
        }
    }
}

/// The one-line rendering of a field error.
pub open spec fn error_message_v(e: ErrorV) -> Seq<char> {
    "Query for field '"@ + e.field + "' failed at '"@ + e.prefix + "': "@ + e.message
}

impl Error {
    /// A field error whose message is built at decode time.
    pub fn owned(field: &'static str, prefix: &'static str, message: String) -> (r: Self)
        ensures
            r@ == (ErrorV { field: field@, prefix: prefix@, message: message@ }),
    {
        Error { field: String::from_str(field), prefix: String::from_str(prefix), message }
    }

    /// A field error whose message is a fixed string.
    pub fn borrowed(field: &'static str, prefix: &'static str, message: &'static str) -> (r: Self)
        ensures
            r@ == (ErrorV { field: field@, prefix: prefix@, message: message@ }),
    {
        Error {
            field: String::from_str(field),
            prefix: String::from_str(prefix),
            message: String::from_str(message),
        }
    }

    /// A field error from already-owned parts.
    pub fn new(field: String, prefix: String, message: String) -> (r: Self)
        ensures
            r@ == (ErrorV { field: field@, prefix: prefix@, message: message@ }),
    {
        Error { field, prefix, message }
    }

    /// Renders the error as
    /// `Query for field '<field>' failed at '<prefix>': <message>`.
    pub fn to_message(&self) -> (r: String)
        ensures
            r@ =~= error_message_v(self@),
    {
        let mut r = String::from_str("Query for field '");
        r.append(self.field.as_str());
        r.append("' failed at '");
        r.append(self.prefix.as_str());
        r.append("': ");
        r.append(self.message.as_str());
        r
    }
}

/// The errors among a list of per-field outcomes, in field order.
pub open spec fn present_v(s: Seq<Option<Error>>) -> Seq<ErrorV>
    decreases s.len(),
{
    if s.len() == 0 {
        Seq::empty()
    } else {
        match s[0] {
            Option::Some(e) => seq![e@] + present_v(s.drop_first()),
            Option::None => present_v(s.drop_first()),
        }
    }
}

/// The `'a', 'b'` list of failing field names, starting at position `i`.
pub open spec fn names_from_v(es: Seq<ErrorV>, i: int) -> Seq<char>
    decreases es.len() - i,
{
    if i < 0 || i >= es.len() {
        Seq::empty()
    } else if i == es.len() - 1 {
        "'"@ + es[i].field + "'"@
    } else {
        "'"@ + es[i].field + "'"@ + ", "@ + names_from_v(es, i + 1)
    }
}

/// The numbered list of full error messages, starting at position `i`.
pub open spec fn numbered_from_v(es: Seq<ErrorV>, i: int) -> Seq<char>
    decreases es.len() - i,
{
    if i < 0 || i >= es.len() {
        Seq::empty()
    } else {
        "  "@ + dec_str((i + 1) as nat) + ". "@ + error_message_v(es[i]) + "\n"@ + numbered_from_v(
            es,
            i + 1,
        )
    }
}

/// The composite report: empty for no errors, the one message verbatim for
/// a single error, and a summary line plus a numbered list otherwise.
pub open spec fn composite_message_v(es: Seq<ErrorV>) -> Seq<char> {
    if es.len() == 0 {
        Seq::empty()
    } else if es.len() == 1 {
        error_message_v(es[0])
    } else {
        "Queries failed for fields: "@ + names_from_v(es, 0) + "\n"@ + numbered_from_v(es, 0)
    }
}

/// The per-field outcomes of one decode call, kept in field order.
#[derive(Debug)]
pub struct Errors {
    pub errors: Vec<Option<Error>>,
}

impl Errors {
    /// Wraps the per-field outcomes of one decode call.
    pub fn new(errors: Vec<Option<Error>>) -> (r: Self)
        ensures
            r.errors == errors,
    {
        Errors { errors }
    }

    /// How many fields failed.
    pub fn error_count(&self) -> (r: usize)
        ensures
            r == present_v(self.errors@).len(),
    {
        let ghost s = self.errors@;
        let mut count: usize = 0;
        let mut i: usize = 0;
        let n = self.errors.len();
        proof {
            assert(s.skip(0) =~= s);
        }
        while i < n
            invariant
                i <= n,
                n == s.len(),
                s == self.errors@,
                count as int + present_v(s.skip(i as int)).len() == present_v(s).len(),
                count <= i,
            decreases n - i,
        {
            proof {
                assert(s.skip(i as int)[0] == s[i as int]);
                assert(s.skip(i as int).drop_first() =~= s.skip(i + 1));
            }
            match &self.errors[i] {
                Option::Some(_) => {
                    count = count + 1;
                },
                Option::None => {},
            }
            i = i + 1;
        }
        proof {
            assert(s.skip(n as int) =~= Seq::<Option<Error>>::empty());
        }
        count
    }

    /// The failing fields' errors, in field order.
    pub fn errors(&self) -> (r: Vec<Error>)
        ensures
            r.deep_view() =~= present_v(self.errors@),
    {
        let ghost s = self.errors@;
        let mut r: Vec<Error> = Vec::new();
        let mut i: usize = 0;
        let n = self.errors.len();
        proof {
            assert(s.skip(0) =~= s);
        }
        while i < n
            invariant
                i <= n,
                n == s.len(),
                s == self.errors@,
                r.deep_view() + present_v(s.skip(i as int)) =~= present_v(s),
            decreases n - i,
        {
            let ghost pre = r.deep_view();
            proof {
                assert(s.skip(i as int)[0] == s[i as int]);
                assert(s.skip(i as int).drop_first() =~= s.skip(i + 1));
            }
            match &self.errors[i] {
                Option::Some(e) => {
                    r.push(e.clone());
                    proof {
                        assert(r.deep_view() =~= pre.push(s[i as int]->Some_0@));
                        assert(pre.push(s[i as int]->Some_0@) + present_v(s.skip(i + 1)) =~= pre + (
                        seq![s[i as int]->Some_0@] + present_v(s.skip(i + 1))));
                    }
                },
                Option::None => {},
            }
            i = i + 1;
        }
        proof {
            assert(s.skip(n as int) =~= Seq::<Option<Error>>::empty());
            assert(r.deep_view() + Seq::<ErrorV>::empty() =~= r.deep_view());
        }
        r
    }

    /// Renders the composite report: nothing for no errors, the single
    /// error's message verbatim, or a summary line naming every failing
    /// field followed by a numbered list of the full messages.
    pub fn to_message(&self) -> (r: String)
        ensures
            r@ =~= composite_message_v(present_v(self.errors@)),
    {
        let es = self.errors();
        let ghost ev = present_v(self.errors@);
        let n = es.len();
        if n == 0 {
            String::new()
        } else if n == 1 {
            let r = es[0].to_message();
            proof {
                assert(es.deep_view()[0] == ev[0]);
            }
            r
        } else {
            let mut r = String::from_str("Queries failed for fields: ");
            let mut i: usize = 0;
            while i < n
                invariant
                    i <= n,
                    n == es@.len(),
                    es.deep_view() =~= ev,
                    n >= 2,
                    r@ + names_from_v(ev, i as int) =~= "Queries failed for fields: "@
                        + names_from_v(ev, 0),
                decreases n - i,
            {
                r.append("'");
                r.append(es[i].field.as_str());
                r.append("'");
                if i + 1 < n {
                    r.append(", ");
                }
                proof {
                    assert(es.deep_view()[i as int] == ev[i as int]);
                }
                i = i + 1;
            }
            r.append("\n");
            let mut i: usize = 0;
            while i < n
                invariant
                    i <= n,
                    n == es@.len(),
                    es.deep_view() =~= ev,
                    n >= 2,
                    r@ + numbered_from_v(ev, i as int) =~= "Queries failed for fields: "@
                        + names_from_v(ev, 0) + "\n"@ + numbered_from_v(ev, 0),
                decreases n - i,
            {
                r.append("  ");
                let num = usize_to_string(i + 1);
                r.append(num.as_str());
                r.append(". ");
                let msg = es[i].to_message();
                r.append(msg.as_str());
                r.append("\n");
                proof {
                    assert(es.deep_view()[i as int] == ev[i as int]);
                }
                i = i + 1;
            }
            r
        }
    }
}

} // verus!
