//! Classification of a single argument token.

use vstd::prelude::*;

verus! {

/// Where the value of a flag comes from when its handler asks for one.
pub enum Origin {
    /// Text given in the same token after `=`.
    Inline(String),
    /// The next token of the stream, unless it is absent or looks like a flag.
    Stream,
    /// None: the flag stands inside a short cluster, before its last character.
    MidCluster(char),
}

/// The mathematical form of an `Origin`.
pub ghost enum OriginView {
    Inline(Seq<char>),
    Stream,
    MidCluster(char),
}

impl View for Origin {
    type V = OriginView;

    open spec fn view(&self) -> OriginView {
        match self {
            Origin::Inline(v) => OriginView::Inline(v@),
            Origin::Stream => OriginView::Stream,
            Origin::MidCluster(c) => OriginView::MidCluster(*c),
        }
    }
}

/// One handler call made for a character of a short-flag cluster.
pub struct ShortCall {
    pub flag: char,
    pub is_last: bool,
    pub origin: Origin,
}

/// The mathematical form of a `ShortCall`.
pub ghost struct ShortCallView {
    pub flag: char,
    pub is_last: bool,
    pub origin: OriginView,
}

impl View for ShortCall {
    type V = ShortCallView;

    open spec fn view(&self) -> ShortCallView {
        ShortCallView { flag: self.flag, is_last: self.is_last, origin: self.origin@ }
    }
}

/// How a token is dispatched.
pub enum TokenClass {
    /// `--name` or `--name=value`.
    Long { name: String, inline: Option<String> },
    /// `-abc`, `-abc=value`: the handler calls its characters give rise to, in order.
    Short { calls: Vec<ShortCall> },
    /// Anything else, a bare `-` included.
    Positional,
}

/// The mathematical form of a `TokenClass`.
pub ghost enum ClassView {
    Long { name: Seq<char>, inline: Option<Seq<char>> },
    Short { calls: Seq<ShortCallView> },
    Positional,
}

/// The mathematical form of a sequence of short-flag calls.
pub open spec fn calls_view(calls: Seq<ShortCall>) -> Seq<ShortCallView> {
    calls.map_values(|c: ShortCall| c@)
}

impl View for TokenClass {
    type V = ClassView;

    open spec fn view(&self) -> ClassView {
        match self {
            TokenClass::Long { name, inline } => ClassView::Long {
                name: name@,
                inline: match inline {
                    Some(v) => Some(v@),
                    None => None,
                },
            },
            TokenClass::Short { calls } => ClassView::Short { calls: calls_view(calls@) },
            TokenClass::Positional => ClassView::Positional,
        }
    }
}

/// `--` and anything after it.
pub open spec fn is_long_token(t: Seq<char>) -> bool {
    t.len() >= 2 && t[0] == '-' && t[1] == '-'
}

/// One `-` followed by at least one character other than `-`.
pub open spec fn is_short_token(t: Seq<char>) -> bool {
    t.len() >= 2 && t[0] == '-' && t[1] != '-'
}

/// Neither a long flag nor a short cluster.
pub open spec fn is_positional_token(t: Seq<char>) -> bool {
    !is_long_token(t) && !is_short_token(t)
}

/// A token that a value supplier refuses to hand out as a value.
pub open spec fn looks_like_flag(t: Seq<char>) -> bool {
    t.len() > 0 && t[0] == '-'
}

/// `s` holds no `=`.
pub open spec fn no_eq(s: Seq<char>) -> bool {
    forall|j: int| 0 <= j < s.len() ==> s[j] != '='
}

/// `k` is the index of the first `=` in `s`.
pub open spec fn is_first_eq(s: Seq<char>, k: int) -> bool {
    0 <= k < s.len() && s[k] == '=' && no_eq(s.take(k))
}

/// Index of the first `=` in `s`, or `s.len()` where there is none.
#[verifier::opaque]
pub open spec fn eq_index(s: Seq<char>) -> int {
    if no_eq(s) {
        s.len() as int
    } else {
        choose|k: int| is_first_eq(s, k)
    }
}

/// What follows the first `=` of `s`.
pub open spec fn after_eq(s: Seq<char>) -> Seq<char> {
    s.skip(eq_index(s) + 1)
}

/// The call for character `i` of cluster `s`, whose last dispatched character is `end`.
pub open spec fn short_call_at(s: Seq<char>, i: int, end: int) -> ShortCallView {
    if i < end {
        ShortCallView { flag: s[i], is_last: false, origin: OriginView::MidCluster(s[i]) }
    } else if no_eq(s.skip(1)) {
        ShortCallView { flag: s[i], is_last: true, origin: OriginView::Stream }
    } else {
        ShortCallView { flag: s[i], is_last: true, origin: OriginView::Inline(after_eq(s)) }
    }
}

/// The handler calls for the characters of cluster `s` (what follows the leading `-`):
/// one per character up to the one right before the first `=` that is not the first
/// character, or up to the last character where there is no such `=`.
pub open spec fn cluster_calls(s: Seq<char>) -> Seq<ShortCallView> {
    let end = eq_index(s.skip(1));
    Seq::new((end + 1) as nat, |i: int| short_call_at(s, i, end))
}

/// The classification of token `t`.
pub open spec fn class_of(t: Seq<char>) -> ClassView {
    if is_long_token(t) {
        let rest = t.skip(2);
        if no_eq(rest) {
            ClassView::Long { name: rest, inline: None }
        } else {
            ClassView::Long { name: rest.take(eq_index(rest)), inline: Some(after_eq(rest)) }
        }
    } else if is_short_token(t) {
        ClassView::Short { calls: cluster_calls(t.skip(1)) }
    } else {
        ClassView::Positional
    }
}

/// A sequence with an `=` has a first one.
proof fn lemma_first_eq_exists(s: Seq<char>)
    requires
        !no_eq(s),
    ensures
        exists|k: int| is_first_eq(s, k),
    decreases s.len(),
{
    if s[0] == '=' {
        assert(is_first_eq(s, 0));
    } else {
        let t = s.drop_first();
        let j = choose|j: int| 0 <= j < s.len() && s[j] == '=';
        assert(t[j - 1] == '=');
        lemma_first_eq_exists(t);
        let k = choose|k: int| is_first_eq(t, k);
        assert forall|i: int| 0 <= i < k + 1 implies #[trigger] s.take(k + 1)[i] != '=' by {
            if i > 0 {
                assert(t.take(k)[i - 1] == s[i]);
            }
        }
        assert(is_first_eq(s, k + 1));
    }
}

/// The first `=` lies within the sequence, or is its length.
pub proof fn lemma_eq_index_bounds(s: Seq<char>)
    ensures
        0 <= eq_index(s) <= s.len(),
{
    reveal(eq_index);
    if !no_eq(s) {
        lemma_first_eq_exists(s);
    }
}

/// The first `=` is the one that `eq_index` names.
pub proof fn lemma_first_eq_unique(s: Seq<char>, k: int)
    requires
        is_first_eq(s, k),
    ensures
        eq_index(s) == k,
{
    reveal(eq_index);
    assert(!no_eq(s));
    let c = choose|c: int| is_first_eq(s, c);
    assert(is_first_eq(s, c));
    if c < k {
        assert(s.take(k)[c] == '=');
    } else if k < c {
        assert(s.take(c)[k] == '=');
    }
}

/// The characters of `s`, in order.
pub(crate) fn chars_of(s: &str) -> (r: Vec<char>)
    ensures
        r@ == s@,
{
    let mut out: Vec<char> = Vec::new();
    for c in it: s.chars()
        invariant
            it.seq() == s@,
            out@ == s@.take(it.index() as int),
    {
        out.push(c);
        assert(out@ =~= s@.take(it.index() as int + 1));
    }
    assert(out@ =~= s@);
    out
}

/// Relies on `String`'s `FromIterator<char>`: the string of exactly these characters.
#[verifier::external_body]
pub(crate) fn string_of(cs: &[char]) -> (r: String)
    ensures
        r@ == cs@,
{
    cs.iter().collect()
}

/// The string made of `cs[lo..hi]`.
fn substring(cs: &Vec<char>, lo: usize, hi: usize) -> (r: String)
    requires
        lo <= hi <= cs.len(),
    ensures
        r@ == cs@.subrange(lo as int, hi as int),
{
    let mut part: Vec<char> = Vec::new();
    let mut i: usize = lo;
    while i < hi
        invariant
            lo <= i <= hi <= cs.len(),
            part@ == cs@.subrange(lo as int, i as int),
        decreases hi - i,
    {
        part.push(cs[i]);
        i = i + 1;
    }
    string_of(part.as_slice())
}

/// Index of the first `=` in `cs` at or after `from`, or `cs.len()` where there is none.
fn find_eq(cs: &Vec<char>, from: usize) -> (r: usize)
    requires
        from <= cs.len(),
    ensures
        from <= r <= cs.len(),
        r < cs.len() ==> cs[r as int] == '=',
        forall|j: int| from <= j < r ==> cs[j] != '=',
{
    let mut i: usize = from;
    while i < cs.len()
        invariant
            from <= i <= cs.len(),
            forall|j: int| from <= j < i ==> cs[j] != '=',
        decreases cs.len() - i,
    {
        if cs[i] == '=' {
            return i;
        }
        i = i + 1;
    }
    i
}

/// `find_eq`'s result, in the terms of `eq_index`.
proof fn lemma_find_eq(cs: Seq<char>, from: int, r: int)
    requires
        0 <= from <= r <= cs.len(),
        r < cs.len() ==> cs[r] == '=',
        forall|j: int| from <= j < r ==> cs[j] != '=',
    ensures
        eq_index(cs.skip(from)) == r - from,
        no_eq(cs.skip(from)) <==> r == cs.len(),
{
    let t = cs.skip(from);
    reveal(eq_index);
    assert forall|j: int| 0 <= j < r - from implies #[trigger] t[j] != '=' by {
        assert(t[j] == cs[j + from]);
    }
    if r < cs.len() {
        assert(t[r - from] == '=');
        assert(is_first_eq(t, r - from)) by {
            assert forall|j: int| 0 <= j < r - from implies #[trigger] t.take(r - from)[j]
                != '=' by {
                assert(t.take(r - from)[j] == t[j]);
            }
        }
        lemma_first_eq_unique(t, r - from);
    }
}

/// The handler calls for the short-flag token `cs` (a `-` and at least one more character).
fn short_calls(cs: &Vec<char>) -> (r: Vec<ShortCall>)
    requires
        cs.len() >= 2,
    ensures
        calls_view(r@) == cluster_calls(cs@.skip(1)),
{
    let ghost s = cs@.skip(1);
    let n = cs.len();
    let stop = find_eq(cs, 2);
    let first = find_eq(cs, 1);
    proof {
        lemma_find_eq(cs@, 2, stop as int);
        lemma_find_eq(cs@, 1, first as int);
        assert(s.skip(1) =~= cs@.skip(2));
        if first < n {
            assert(after_eq(s) =~= cs@.subrange(first + 1, n as int));
        }
    }
    let ghost end = stop - 2;
    let mut out: Vec<ShortCall> = Vec::new();
    let mut i: usize = 1;
    while i < stop
        invariant
            n == cs.len(),
            2 <= stop <= n,
            1 <= i <= stop,
            s == cs@.skip(1),
            end == stop - 2,
            end == eq_index(s.skip(1)),
            no_eq(s.skip(1)) <==> stop == n,
            first < n ==> after_eq(s) == cs@.subrange(first + 1, n as int),
            stop < n ==> first < n,
            first <= n,
            out.len() == i - 1,
            forall|k: int| 0 <= k < i - 1 ==> #[trigger] out@[k]@ == short_call_at(s, k, end),
        decreases stop - i,
    {
        let c = cs[i];
        assert(s[i - 1] == c);
        let call = if i + 1 < stop {
            ShortCall { flag: c, is_last: false, origin: Origin::MidCluster(c) }
        } else if stop == n {
            ShortCall { flag: c, is_last: true, origin: Origin::Stream }
        } else {
            let value = substring(cs, first + 1, n);
            ShortCall { flag: c, is_last: true, origin: Origin::Inline(value) }
        };
        assert(call@ == short_call_at(s, i - 1, end));
        let ghost before = out@;
        let ghost pushed = call;
        out.push(call);
        proof {
            lemma_push_facts(before, pushed);
        }
        i = i + 1;
    }
    assert(calls_view(out@) =~= cluster_calls(s));
    out
}

/// Classifies `token` and, for a flag, splits it into what its handler calls receive.
pub fn classify(token: &String) -> (r: TokenClass)
    ensures
        r@ == class_of(token@),
{
    let cs = chars_of(token.as_str());
    let n = cs.len();
    if n >= 2 && cs[0] == '-' && cs[1] == '-' {
        let k = find_eq(&cs, 2);
        proof {
            lemma_find_eq(cs@, 2, k as int);
            assert(token@.skip(2) =~= cs@.skip(2));
        }
        if k == n {
            let name = substring(&cs, 2, n);
            assert(name@ =~= token@.skip(2));
            TokenClass::Long { name, inline: None }
        } else {
            let name = substring(&cs, 2, k);
            let value = substring(&cs, k + 1, n);
            assert(name@ =~= token@.skip(2).take(k - 2));
            assert(value@ =~= after_eq(token@.skip(2)));
            TokenClass::Long { name, inline: Some(value) }
        }
    } else if n >= 2 && cs[0] == '-' {
        let calls = short_calls(&cs);
        TokenClass::Short { calls }
    } else {
        TokenClass::Positional
    }
}

/// What pushing onto a sequence of calls does. Inside `short_calls`, where the
/// pushed value is an enum holding a `String`, the solver does not reach these
/// facts from the sequence axioms alone.
proof fn lemma_push_facts(a: Seq<ShortCall>, x: ShortCall)
    ensures
        a.push(x).len() == a.len() + 1,
        a.push(x)[a.len() as int] == x,
        forall|k: int| 0 <= k < a.len() ==> #[trigger] a.push(x)[k] == a[k],
{
}

} // verus!
