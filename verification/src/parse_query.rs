//! The path parser.  Token by token it consumes the lexed input into an
//! ordered list of steps, then folds the steps right to left into a
//! [`QueryFragment`].  Grammar violations do not abort the parse: the parser
//! reports them and goes on with the rest of the path, so one pass surfaces
//! every mistake.
//!
//! The grammar is `path := ("." step)*`, `step := identifier | "[" body "]"`
//! with `body := integer | quoted-string | ε`.  An empty bracket denotes a
//! collect step, an integer an index step, and a quoted string a quoted
//! field step.  One departure from the bare grammar: an integer too large
//! for a machine word is reported as a parse error rather than accepted.

use vstd::prelude::*;

use crate::lexer::{lex, lex_spec, lemma_lex_spec_at, LexemeV, Token};
use crate::query::{fold_steps, FragmentV, QueryFragment, StepV};
use crate::text::{digits_val, is_digit, usize_to_string};

verus! {

/// One parsed step of a path.
#[derive(Debug, Clone, PartialEq, Eq, PartialOrd, Ord, Hash)]
pub enum Query {
    /// Descend into the named member of a map.
    Field { name: String, quoted: bool },
    /// Descend into the n-th element of a sequence.
    Index(usize),
    /// Descend into every element of a sequence, collecting the results.
    CollectArray,
}

impl View for Query {
    type V = StepV;

    open spec fn view(&self) -> StepV {
        match self {
            Query::Field { name, quoted } => StepV::Field { name: name@, quoted: *quoted },
            Query::Index(i) => StepV::Index(*i as int),
            Query::CollectArray => StepV::Collect,
        }
    }
}

impl DeepView for Query {
    type V = StepV;

    open spec fn deep_view(&self) -> StepV {
        self.view()
    }
}

/// A grammar violation in a path string, with a human-readable message that
/// begins with the character span it was found at.
#[derive(Debug)]
pub struct ParseError {
    pub message: String,
}

/// Unescaping of a quoted field name: a backslash is dropped and the
/// character after it is kept verbatim; a trailing lone backslash is
/// dropped.
pub open spec fn unquote(s: Seq<char>) -> Seq<char>
    decreases s.len(),
{
    if s.len() == 0 {
        Seq::empty()
    } else if s[0] == '\\' {
        if s.len() == 1 {
            Seq::empty()
        } else {
            seq![s[1]] + unquote(s.skip(2))
        }
    } else {
        seq![s[0]] + unquote(s.skip(1))
    }
}

/// Prepends a step to a parse outcome, keeping failure as failure.
pub open spec fn opt_cons(x: StepV, rest: Option<Seq<StepV>>) -> Option<Seq<StepV>> {
    match rest {
        Option::Some(t) => Option::Some(seq![x] + t),
        Option::None => Option::None,
    }
}

/// Appends a parse outcome to already-parsed steps, keeping failure as
/// failure.
pub open spec fn opt_append(pre: Seq<StepV>, rest: Option<Seq<StepV>>) -> Option<Seq<StepV>> {
    match rest {
        Option::Some(t) => Option::Some(pre + t),
        Option::None => Option::None,
    }
}

/// The step sequence denoted by a token sequence, or `None` if the tokens
/// violate the grammar.  `s` is the input the tokens' spans point into.
pub open spec fn steps_of_lexemes(ls: Seq<LexemeV>, s: Seq<char>) -> Option<Seq<StepV>>
    decreases ls.len(),
{
    if ls.len() == 0 {
        Option::Some(Seq::empty())
    } else if ls[0].token != Token::Dot {
        Option::None
    } else if ls.len() >= 2 && ls[1].token == Token::Field {
        opt_cons(
            StepV::Field { name: s.subrange(ls[1].start, ls[1].end), quoted: false },
            steps_of_lexemes(ls.skip(2), s),
        )
    } else if ls.len() >= 3 && ls[1].token == Token::OpenBracket && ls[2].token
        == Token::CloseBracket {
        opt_cons(StepV::Collect, steps_of_lexemes(ls.skip(3), s))
    } else if ls.len() >= 4 && ls[1].token == Token::OpenBracket && ls[2].token == Token::Index
        && ls[3].token == Token::CloseBracket {
        if digits_val(s.subrange(ls[2].start, ls[2].end)) <= usize::MAX as nat {
            opt_cons(
                StepV::Index(digits_val(s.subrange(ls[2].start, ls[2].end)) as int),
                steps_of_lexemes(ls.skip(4), s),
            )
        } else {
            Option::None
        }
    } else if ls.len() >= 4 && ls[1].token == Token::OpenBracket && ls[2].token
        == Token::QuotedField && ls[3].token == Token::CloseBracket {
        opt_cons(
            StepV::Field {
                name: unquote(s.subrange(ls[2].start + 1, ls[2].end - 1)),
                quoted: true,
            },
            steps_of_lexemes(ls.skip(4), s),
        )
    } else {
        Option::None
    }
}

/// The step sequence denoted by a path string, or `None` if the string
/// violates the grammar.
pub open spec fn steps_of(s: Seq<char>) -> Option<Seq<StepV>> {
    steps_of_lexemes(lex_spec(s, 0), s)
}

proof fn lemma_opt_append_cons(pre: Seq<StepV>, x: StepV, rest: Option<Seq<StepV>>)
    ensures
        opt_append(pre, opt_cons(x, rest)) == opt_append(pre.push(x), rest),
{
    match rest {
        Option::Some(t) => {
            assert(pre + (seq![x] + t) =~= pre.push(x) + t);
        },
        Option::None => {},
    }
}

proof fn lemma_digits_val_mono(s: Seq<char>, a: int, b: int, c: int)
    requires
        0 <= a <= b <= c <= s.len(),
    ensures
        digits_val(s.subrange(a, b)) <= digits_val(s.subrange(a, c)),
    decreases c - b,
{
    if b < c {
        lemma_digits_val_mono(s, a, b, c - 1);
        assert(s.subrange(a, c).drop_last() =~= s.subrange(a, c - 1));
    }
}

/// Removes the surrounding double quotes from a quoted token and unescapes
/// the inside: a backslash is dropped, the character after it kept as it is.
pub fn from_quoted(quoted: &str) -> (r: String)
    ensures
        r@ =~= unquote(quoted@),
{
    let ghost s = quoted@;
    let len = quoted.unicode_len();
    let mut r = String::new();
    let mut i: usize = 0;
    proof {
        assert(s.skip(0) =~= s);
    }
    while i < len
        invariant
            i <= len,
            len == s.len(),
            s == quoted@,
            unquote(s) =~= r@ + unquote(s.skip(i as int)),
        decreases len - i,
    {
        let c = quoted.get_char(i);
        if c == '\\' {
            if i + 1 < len {
                r.append(quoted.substring_char(i + 1, i + 2));
                proof {
                    assert(s.skip(i as int).skip(2) =~= s.skip(i + 2));
                    assert(s.skip(i as int)[1] == s[i + 1]);
                    assert(quoted@.subrange(i + 1, i + 2) =~= seq![s[i + 1]]);
                }
                i = i + 2;
            } else {
                i = i + 1;
            }
        } else {
            r.append(quoted.substring_char(i, i + 1));
            proof {
                assert(s.skip(i as int).skip(1) =~= s.skip(i + 1));
                assert(quoted@.subrange(i as int, i + 1) =~= seq![s[i as int]]);
            }
            i = i + 1;
        }
    }
    proof {
        assert(s.skip(len as int) =~= Seq::<char>::empty());
    }
    r
}

/// Reads the decimal number in `input[start..end]`, or reports that it does
/// not fit in a machine word.
fn parse_index(input: &str, start: usize, end: usize) -> (r: Option<usize>)
    requires
        start <= end <= input@.len(),
        forall|j: int| start <= j < end ==> is_digit(#[trigger] input@[j]),
    ensures
        match r {
            Option::Some(v) => v as nat == digits_val(input@.subrange(start as int, end as int)),
            Option::None => digits_val(input@.subrange(start as int, end as int)) > usize::MAX
                as nat,
        },
{
    let ghost s = input@;
    let mut acc: usize = 0;
    let mut j = start;
    proof {
        assert(s.subrange(start as int, start as int) =~= Seq::<char>::empty());
    }
    while j < end
        invariant
            start <= j <= end,
            end <= s.len(),
            s == input@,
            forall|k: int| start <= k < end ==> is_digit(#[trigger] s[k]),
            acc as nat == digits_val(s.subrange(start as int, j as int)),
        decreases end - j,
    {
        let c = input.get_char(j);
        let d = ((c as u32) - 48) as usize;
        proof {
            assert(is_digit(s[j as int]));
            assert(d as nat == crate::text::digit_val(s[j as int]));
        }
        let next = match acc.checked_mul(10) {
            Option::Some(m) => m.checked_add(d),
            Option::None => Option::None,
        };
        proof {
            assert(s.subrange(start as int, j + 1).drop_last() =~= s.subrange(
                start as int,
                j as int,
            ));
            assert(digits_val(s.subrange(start as int, j + 1)) == acc as nat * 10 + d as nat);
        }
        match next {
            Option::Some(v) => {
                acc = v;
            },
            Option::None => {
                proof {
                    lemma_digits_val_mono(s, start as int, j + 1, end as int);
                }
                return Option::None;
            },
        }
        j = j + 1;
    }
    Option::Some(acc)
}

/// The display name of a token kind, as it appears in parse diagnostics.
fn token_str(t: Token) -> (r: &'static str) {
    match t {
        Token::Dot => "Dot",
        Token::OpenBracket => "OpenBracket",
        Token::CloseBracket => "CloseBracket",
        Token::Field => "Field",
        Token::QuotedField => "QuotedField",
        Token::Index => "Index",
        Token::Error => "Error",
    }
}

/// Builds the message `"{start}..{end}: {text}{got}"`.
fn span_error(start: usize, end: usize, text: &str, got: &str) -> (r: ParseError) {
    let mut message = usize_to_string(start);
    message.append("..");
    let end_str = usize_to_string(end);
    message.append(end_str.as_str());
    message.append(": ");
    message.append(text);
    message.append(got);
    ParseError { message }
}

/// Parses a path string into a fragment, reporting every grammar violation.
///
/// The fragment is the right-to-left fold of the parsed steps onto the
/// accept marker.  No error is reported if and only if the whole input
/// matches the grammar, and then the fragment is exactly the fold of the
/// step sequence the grammar assigns to the input.
pub fn parse(input: &str) -> (r: (QueryFragment, Vec<ParseError>))
    ensures
        (r.1@.len() == 0) <==> (steps_of(input@) is Some),
        steps_of(input@) matches Option::Some(sts) ==> r.0@ == fold_steps(sts),
{
    let ghost s = input@;
    let lexemes = lex(input);
    let ghost big_l = lexemes.deep_view();
    let n = lexemes.len();
    let mut steps: Vec<Query> = Vec::new();
    let mut errors: Vec<ParseError> = Vec::new();
    let mut p: usize = 0;
    let input_len = input.unicode_len();
    proof {
        assert(big_l.skip(0) =~= big_l);
    }
    while p < n
        invariant
            p <= n,
            n == big_l.len(),
            n == lexemes@.len(),
            big_l == lexemes.deep_view(),
            big_l == lex_spec(s, 0),
            s == input@,
            input_len == s.len(),
            errors@.len() == 0 ==> steps_of_lexemes(big_l, s) == opt_append(
                steps.deep_view(),
                steps_of_lexemes(big_l.skip(p as int), s),
            ),
            errors@.len() > 0 ==> steps_of_lexemes(big_l, s) is None,
        decreases n - p,
    {
        let ghost steps_old = steps.deep_view();
        let ghost tail = big_l.skip(p as int);
        proof {
            assert(tail[0] == big_l[p as int]);
            if p + 1 < n {
                assert(tail[1] == big_l[p + 1]);
            }
        }
        let l = lexemes[p];
        if l.token == Token::Dot {
            if p + 1 == n {
                // the path ends where a step was expected
                errors.push(
                    span_error(input_len, input_len, "expected '[' or an identifier, got ", "EOF"),
                );
                p = n;
            } else {
                let l1 = lexemes[p + 1];
                if l1.token == Token::Field {
                    proof {
                        lemma_lex_spec_at(s, 0, p + 1);
                    }
                    let name = String::from_str(input.substring_char(l1.start, l1.end));
                    steps.push(Query::Field { name, quoted: false });
                    proof {
                        assert(steps.deep_view() =~= steps_old.push(
                            StepV::Field { name: s.subrange(l1.start as int, l1.end as int), quoted: false },
                        ));
                        assert(tail.skip(2) =~= big_l.skip(p + 2));
                        lemma_opt_append_cons(
                            steps_old,
                            StepV::Field { name: s.subrange(l1.start as int, l1.end as int), quoted: false },
                            steps_of_lexemes(big_l.skip(p + 2), s),
                        );
                    }
                    p = p + 2;
                } else if l1.token == Token::OpenBracket {
                    // collect the bracket body up to the closing bracket
                    let mut cb = p + 2;
                    while cb < n && lexemes[cb].token != Token::CloseBracket
                        invariant
                            p + 2 <= cb <= n,
                            n == big_l.len(),
                            n == lexemes@.len(),
                            big_l == lexemes.deep_view(),
                            forall|j: int|
                                p + 2 <= j < cb ==> (#[trigger] big_l[j]).token
                                    != Token::CloseBracket,
                        decreases n - cb,
                    {
                        cb = cb + 1;
                    }
                    proof {
                        if p + 2 < n {
                            assert(tail[2] == big_l[p + 2]);
                        }
                        if p + 3 < n {
                            assert(tail[3] == big_l[p + 3]);
                        }
                    }
                    if cb == n {
                        // unterminated bracket
                        errors.push(span_error(l1.start, input_len, "expected an ']', got ", "EOF"));
                        p = n;
                    } else if cb == p + 2 {
                        // an empty bracket denotes a collect step
                        steps.push(Query::CollectArray);
                        proof {
                            assert(steps.deep_view() =~= steps_old.push(StepV::Collect));
                            assert(tail.skip(3) =~= big_l.skip(p + 3));
                            lemma_opt_append_cons(
                                steps_old,
                                StepV::Collect,
                                steps_of_lexemes(big_l.skip(p + 3), s),
                            );
                        }
                        p = cb + 1;
                    } else if cb == p + 3 && lexemes[p + 2].token == Token::Index {
                        let l2 = lexemes[p + 2];
                        proof {
                            lemma_lex_spec_at(s, 0, p + 2);
                        }
                        match parse_index(input, l2.start, l2.end) {
                            Option::Some(v) => {
                                steps.push(Query::Index(v));
                                proof {
                                    assert(steps.deep_view() =~= steps_old.push(
                                        StepV::Index(v as int),
                                    ));
                                    assert(tail.skip(4) =~= big_l.skip(p + 4));
                                    lemma_opt_append_cons(
                                        steps_old,
                                        StepV::Index(v as int),
                                        steps_of_lexemes(big_l.skip(p + 4), s),
                                    );
                                }
                                p = cb + 1;
                            },
                            Option::None => {
                                errors.push(
                                    span_error(l2.start, l2.end, "the index is too large", ""),
                                );
                                p = cb + 1;
                            },
                        }
                    } else if cb == p + 3 && lexemes[p + 2].token == Token::QuotedField {
                        let l2 = lexemes[p + 2];
                        proof {
                            lemma_lex_spec_at(s, 0, p + 2);
                        }
                        let name = from_quoted(input.substring_char(l2.start + 1, l2.end - 1));
                        let ghost namev = unquote(s.subrange(l2.start + 1, l2.end as int - 1));
                        steps.push(Query::Field { name, quoted: true });
                        proof {
                            assert(steps.deep_view() =~= steps_old.push(
                                StepV::Field { name: namev, quoted: true },
                            ));
                            assert(tail.skip(4) =~= big_l.skip(p + 4));
                            lemma_opt_append_cons(
                                steps_old,
                                StepV::Field { name: namev, quoted: true },
                                steps_of_lexemes(big_l.skip(p + 4), s),
                            );
                        }
                        p = cb + 1;
                    } else {
                        // a non-empty bracket body that is not a single
                        // integer or quoted string
                        let l2 = lexemes[p + 2];
                        let cbl = lexemes[cb];
                        errors.push(
                            span_error(
                                l1.start,
                                cbl.end,
                                "expected an index or a quoted field inside indexing, got ",
                                token_str(l2.token),
                            ),
                        );
                        p = cb + 1;
                    }
                } else {
                    // a step must begin with a bracket or an identifier
                    errors.push(
                        span_error(
                            l1.start,
                            l1.end,
                            "expected '[' or an identifier, got ",
                            token_str(l1.token),
                        ),
                    );
                    p = p + 2;
                }
            }
        } else {
            // every step is introduced by a dot
            errors.push(span_error(l.start, l.end, "expected Dot, got ", token_str(l.token)));
            p = p + 1;
        }
    }
    proof {
        assert(big_l.skip(n as int) =~= Seq::<LexemeV>::empty());
        if errors@.len() == 0 {
            assert(steps_of_lexemes(big_l, s) == Option::Some(steps.deep_view() + Seq::<StepV>::empty()));
            assert(steps.deep_view() + Seq::<StepV>::empty() =~= steps.deep_view());
        }
    }
    // fold the steps right to left onto the accept marker
    let ghost all_steps = steps.deep_view();
    let mut fragment = QueryFragment::accept();
    proof {
        assert(all_steps.skip(all_steps.len() as int) =~= Seq::<StepV>::empty());
    }
    while steps.len() > 0
        invariant
            steps@.len() <= all_steps.len(),
            steps.deep_view() =~= all_steps.take(steps@.len() as int),
            fragment@ == fold_steps(all_steps.skip(steps@.len() as int)),
        decreases steps@.len(),
    {
        let ghost prev = steps.deep_view();
        let ghost k = steps@.len() as int;
        let step = steps.pop().unwrap();
        proof {
            assert(prev[k - 1] == step.deep_view());
            assert(prev[k - 1] == all_steps[k - 1]);
            assert(steps.deep_view() =~= all_steps.take(k - 1));
            assert(all_steps.skip(k - 1)[0] == all_steps[k - 1]);
            assert(all_steps.skip(k - 1).drop_first() =~= all_steps.skip(k));
        }
        fragment = match step {
            Query::Field { name, quoted } => QueryFragment::field(name, quoted, fragment),
            Query::Index(i) => QueryFragment::index_array(i, fragment),
            Query::CollectArray => QueryFragment::collect_array(fragment),
        };
    }
    proof {
        assert(all_steps.skip(0) =~= all_steps);
    }
    (fragment, errors)
}

} // verus!
