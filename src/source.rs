//! The token cursor that value suppliers draw from, and the parse errors.

use vstd::prelude::*;
use crate::token::{Origin, OriginView, looks_like_flag};

verus! {

/// Why a parse failed.
#[derive(Debug, PartialEq, Eq)]
pub enum ParseError {
    /// No tokens were given at all.
    EmptyInput,
    /// A flag was given an inline `=value` that its handler never asked for.
    UnusedInlineValue { flag: String, value: String },
    /// A value was asked for, but no token was left.
    MissingValue,
    /// A value was asked for, but the next token looks like a flag.
    ExpectedValueGotFlag(String),
    /// A flag inside a short cluster, before its last character, asked for a value.
    CannotTakeValueMidCluster(char),
    /// A handler refused the input for a reason of its own.
    Handler(String),
}

/// The mathematical form of a `ParseError`.
pub ghost enum ErrorView {
    EmptyInput,
    UnusedInlineValue { flag: Seq<char>, value: Seq<char> },
    MissingValue,
    ExpectedValueGotFlag(Seq<char>),
    CannotTakeValueMidCluster(char),
    Handler(Seq<char>),
}

impl View for ParseError {
    type V = ErrorView;

    open spec fn view(&self) -> ErrorView {
        match self {
            ParseError::EmptyInput => ErrorView::EmptyInput,
            ParseError::UnusedInlineValue { flag, value } => ErrorView::UnusedInlineValue {
                flag: flag@,
                value: value@,
            },
            ParseError::MissingValue => ErrorView::MissingValue,
            ParseError::ExpectedValueGotFlag(t) => ErrorView::ExpectedValueGotFlag(t@),
            ParseError::CannotTakeValueMidCluster(c) => ErrorView::CannotTakeValueMidCluster(*c),
            ParseError::Handler(m) => ErrorView::Handler(m@),
        }
    }
}

/// The mathematical form of a value or an error.
pub open spec fn value_view(r: Result<String, ParseError>) -> Result<Seq<char>, ErrorView> {
    match r {
        Ok(s) => Ok(s@),
        Err(e) => Err(e@),
    }
}

/// The mathematical form of a success or an error.
pub open spec fn unit_view(r: Result<(), ParseError>) -> Result<(), ErrorView> {
    match r {
        Ok(_) => Ok(()),
        Err(e) => Err(e@),
    }
}

/// The mathematical form of a token stream.
pub open spec fn tokens_view(v: Seq<String>) -> Seq<Seq<char>> {
    v.map_values(|s: String| s@)
}

/// What a value source holds: the whole token stream, the index of the first
/// token not yet consumed, where the current flag's value comes from, and whether
/// a value has been handed out since the source was armed.
pub ghost struct SourceView {
    pub tokens: Seq<Seq<char>>,
    pub pos: int,
    pub origin: OriginView,
    pub taken: bool,
}

impl SourceView {
    /// `self` can come from `before` by handing out values: the stream and the
    /// origin are the same, nothing is given back, and tokens are consumed only
    /// where values come from the stream.
    pub open spec fn follows(self, before: SourceView) -> bool {
        &&& self.tokens == before.tokens
        &&& self.origin == before.origin
        &&& before.pos <= self.pos <= self.tokens.len()
        &&& before.taken ==> self.taken
        &&& !(before.origin is Stream) ==> self.pos == before.pos
    }

    /// The token consumed last: the one being dispatched right after it was read.
    pub open spec fn current(self) -> Seq<char> {
        self.tokens[self.pos - 1]
    }

    /// The tokens not consumed yet.
    pub open spec fn rest(self) -> Seq<Seq<char>> {
        self.tokens.skip(self.pos)
    }
}

/// The outcome of asking `v` for a value, and the source afterwards.
pub open spec fn take_step(v: SourceView) -> (Result<Seq<char>, ErrorView>, SourceView) {
    match v.origin {
        OriginView::Inline(x) => (Ok(x), SourceView { taken: true, ..v }),
        OriginView::MidCluster(c) => (Err(ErrorView::CannotTakeValueMidCluster(c)), v),
        OriginView::Stream => {
            if v.pos >= v.tokens.len() {
                (Err(ErrorView::MissingValue), v)
            } else if looks_like_flag(v.tokens[v.pos]) {
                (Err(ErrorView::ExpectedValueGotFlag(v.tokens[v.pos])), v)
            } else {
                (Ok(v.tokens[v.pos]), SourceView { pos: v.pos + 1, taken: true, ..v })
            }
        },
    }
}

/// Whether a handler that returned with source `v` left an inline value unused.
pub open spec fn unused_inline(v: SourceView, flag: Seq<char>) -> Result<(), ErrorView> {
    match v.origin {
        OriginView::Inline(x) => if v.taken {
            Ok(())
        } else {
            Err(ErrorView::UnusedInlineValue { flag, value: x })
        },
        _ => Ok(()),
    }
}

/// The value supplier that a handler receives with each flag or argument. It
/// owns the token stream while the parse runs; a handler can only draw from it.
pub struct ValueSource {
    tokens: Vec<String>,
    pos: usize,
    origin: Origin,
    taken: bool,
}

impl View for ValueSource {
    type V = SourceView;

    closed spec fn view(&self) -> SourceView {
        SourceView {
            tokens: tokens_view(self.tokens@),
            pos: self.pos as int,
            origin: self.origin@,
            taken: self.taken,
        }
    }
}

impl ValueSource {
    #[verifier::type_invariant]
    closed spec fn inv(self) -> bool {
        self.pos <= self.tokens.len()
    }

    /// A source over `tokens`, at their start, whose values come from `origin`.
    pub fn new(tokens: Vec<String>, origin: Origin) -> (r: ValueSource)
        ensures
            r@ == (SourceView {
                tokens: tokens_view(tokens@),
                pos: 0,
                origin: origin@,
                taken: false,
            }),
    {
        ValueSource { tokens, pos: 0, origin, taken: false }
    }

    /// Hands out the current flag's value: the inline value, or the next token
    /// where it exists and does not look like a flag, which is then consumed.
    pub fn take(&mut self) -> (r: Result<String, ParseError>)
        ensures
            (value_view(r), final(self)@) == take_step(old(self)@),
    {
        proof {
            use_type_invariant(&*self);
        }
        match &self.origin {
            Origin::Inline(x) => {
                let v = x.clone();
                self.taken = true;
                Ok(v)
            },
            Origin::MidCluster(c) => Err(ParseError::CannotTakeValueMidCluster(*c)),
            Origin::Stream => {
                if self.pos >= self.tokens.len() {
                    Err(ParseError::MissingValue)
                } else {
                    let t = self.tokens[self.pos].clone();
                    if starts_with_dash(&t) {
                        Err(ParseError::ExpectedValueGotFlag(t))
                    } else {
                        self.pos = self.pos + 1;
                        self.taken = true;
                        Ok(t)
                    }
                }
            },
        }
    }

    /// Whether a value has been handed out since the source was armed.
    pub fn was_taken(&self) -> (r: bool)
        ensures
            r == self@.taken,
    {
        self.taken
    }

    /// Points the source at the next flag's value, with nothing taken yet.
    pub(crate) fn arm(&mut self, origin: Origin)
        ensures
            final(self)@ == (SourceView { origin: origin@, taken: false, ..old(self)@ }),
    {
        proof {
            use_type_invariant(&*self);
        }
        self.origin = origin;
        self.taken = false;
    }

    /// Consumes the next token for classification, where one is left.
    pub(crate) fn next_token(&mut self) -> (r: Option<String>)
        ensures
            old(self)@.pos < old(self)@.tokens.len() ==> r is Some && r->Some_0@ == old(
                self,
            )@.tokens[old(self)@.pos] && final(self)@ == (SourceView {
                pos: old(self)@.pos + 1,
                ..old(self)@
            }),
            old(self)@.pos >= old(self)@.tokens.len() ==> r is None && final(self)@ == old(self)@,
            final(self)@.pos <= final(self)@.tokens.len(),
    {
        proof {
            use_type_invariant(&*self);
        }
        if self.pos < self.tokens.len() {
            let t = self.tokens[self.pos].clone();
            self.pos = self.pos + 1;
            Some(t)
        } else {
            None
        }
    }

    /// After a handler returned: fails where the source held an inline value for
    /// `flag` that was never taken.
    pub fn finish(&self, flag: &String) -> (r: Result<(), ParseError>)
        ensures
            unit_view(r) == unused_inline(self@, flag@),
    {
        match &self.origin {
            Origin::Inline(v) => {
                if self.taken {
                    Ok(())
                } else {
                    Err(ParseError::UnusedInlineValue { flag: flag.clone(), value: v.clone() })
                }
            },
            _ => Ok(()),
        }
    }

    /// The tokens not consumed yet, handed over whole.
    pub fn into_rest(self) -> (r: Vec<String>)
        ensures
            tokens_view(r@) == self@.rest(),
    {
        proof {
            use_type_invariant(&self);
        }
        let mut tokens = self.tokens;
        let rest = tokens.split_off(self.pos);
        assert(tokens_view(rest@) =~= self@.rest());
        rest
    }
}

fn starts_with_dash(s: &String) -> (r: bool)
    ensures
        r == looks_like_flag(s@),
{
    let cs = crate::token::chars_of(s.as_str());
    cs.len() > 0 && cs[0] == '-'
}

} // verus!
