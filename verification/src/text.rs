//! Character-level string operations with their specifications over `Seq<char>`.

use vstd::prelude::*;

verus! {

/// Unicode `White_Space` characters, the set that `char::is_whitespace` accepts.
pub open spec fn is_ws(c: char) -> bool {
    let u = c as int;
    ||| 0x09 <= u <= 0x0D
    ||| u == 0x20
    ||| u == 0x85
    ||| u == 0xA0
    ||| u == 0x1680
    ||| 0x2000 <= u <= 0x200A
    ||| u == 0x2028
    ||| u == 0x2029
    ||| u == 0x202F
    ||| u == 0x205F
    ||| u == 0x3000
}

/// Drops every leading character that satisfies `p`.
pub open spec fn trim_start_by(s: Seq<char>, p: spec_fn(char) -> bool) -> Seq<char>
    decreases s.len(),
{
    if s.len() > 0 && p(s[0]) {
        trim_start_by(s.drop_first(), p)
    } else {
        s
    }
}

/// Drops every trailing character that satisfies `p`.
pub open spec fn trim_end_by(s: Seq<char>, p: spec_fn(char) -> bool) -> Seq<char>
    decreases s.len(),
{
    if s.len() > 0 && p(s.last()) {
        trim_end_by(s.drop_last(), p)
    } else {
        s
    }
}

/// Drops the leading and the trailing characters that satisfy `p`.
pub open spec fn trim_by(s: Seq<char>, p: spec_fn(char) -> bool) -> Seq<char> {
    trim_end_by(trim_start_by(s, p), p)
}

/// The whitespace predicate as a value.
pub open spec fn ws_pred() -> spec_fn(char) -> bool {
    |c: char| is_ws(c)
}

/// The predicate "is the character `x`" as a value.
pub open spec fn char_pred(x: char) -> spec_fn(char) -> bool {
    |c: char| c == x
}

/// What `str::trim` leaves of `s`.
pub open spec fn trim_ws(s: Seq<char>) -> Seq<char> {
    trim_by(s, ws_pred())
}

/// What `str::trim_matches(c)` leaves of `s`.
pub open spec fn trim_char(s: Seq<char>, c: char) -> Seq<char> {
    trim_by(s, char_pred(c))
}

/// A character pattern that trimming can remove.
pub enum Pat {
    Ws,
    Ch(char),
}

impl Pat {
    pub open spec fn pred(self) -> spec_fn(char) -> bool {
        match self {
            Pat::Ws => ws_pred(),
            Pat::Ch(x) => char_pred(x),
        }
    }

    pub fn test(&self, c: char) -> (b: bool)
        ensures
            b == (self.pred())(c),
    {
        match self {
            Pat::Ws => char_is_ws(c),
            Pat::Ch(x) => c == *x,
        }
    }
}

/// Executable `char::is_whitespace`.
pub fn char_is_ws(c: char) -> (b: bool)
    ensures
        b == is_ws(c),
{
    let u = c as u32;
    (0x09 <= u && u <= 0x0D) || u == 0x20 || u == 0x85 || u == 0xA0 || u == 0x1680 || (0x2000
        <= u && u <= 0x200A) || u == 0x2028 || u == 0x2029 || u == 0x202F || u == 0x205F || u
        == 0x3000
}

/// Appends one character to a `String` (`String::push`).
#[verifier::external_body]
pub(crate) fn push_char(s: &mut String, c: char)
    ensures
        final(s)@ == old(s)@.push(c),
{
    s.push(c);
}

/// The characters of `s`, in order.
pub fn chars_of(s: &str) -> (v: Vec<char>)
    ensures
        v@ == s@,
{
    let mut v: Vec<char> = Vec::new();
    for c in it: s.chars()
        invariant
            v@ == it.seq().take(it.index() as int),
            it.seq() == s@,
    {
        v.push(c);
    }
    v
}

/// A `String` made of `v[start..end]`.
pub fn string_of(v: &Vec<char>, start: usize, end: usize) -> (s: String)
    requires
        start <= end <= v@.len(),
    ensures
        s@ == v@.subrange(start as int, end as int),
{
    let mut s = String::new();
    let mut i = start;
    while i < end
        invariant
            start <= i <= end <= v@.len(),
            s@ == v@.subrange(start as int, i as int),
        decreases end - i,
    {
        push_char(&mut s, v[i]);
        assert(v@.subrange(start as int, i + 1) =~= v@.subrange(start as int, i as int).push(v@[i as int]));
        i += 1;
    }
    s
}

/// Bounds of what trimming `pat` leaves of `v[lo..hi]`.
pub fn trim_range(v: &Vec<char>, pat: &Pat, lo: usize, hi: usize) -> (r: (usize, usize))
    requires
        lo <= hi <= v@.len(),
    ensures
        lo <= r.0 <= r.1 <= hi,
        v@.subrange(r.0 as int, r.1 as int) == trim_by(v@.subrange(lo as int, hi as int), pat.pred()),
{
    let ghost p = pat.pred();
    let mut a = lo;
    while a < hi && pat.test(v[a])
        invariant
            lo <= a <= hi <= v@.len(),
            p == pat.pred(),
            trim_start_by(v@.subrange(lo as int, hi as int), p) == trim_start_by(
                v@.subrange(a as int, hi as int),
                p,
            ),
        decreases hi - a,
    {
        assert(v@.subrange(a as int, hi as int).drop_first() =~= v@.subrange(a + 1, hi as int));
        a += 1;
    }
    let mut b = hi;
    while b > a && pat.test(v[b - 1])
        invariant
            lo <= a <= b <= hi <= v@.len(),
            p == pat.pred(),
            trim_end_by(v@.subrange(a as int, hi as int), p) == trim_end_by(
                v@.subrange(a as int, b as int),
                p,
            ),
        decreases b - a,
    {
        assert(v@.subrange(a as int, b as int).drop_last() =~= v@.subrange(a as int, b - 1));
        b -= 1;
    }
    (a, b)
}

/// `s` with the leading and trailing characters matching `pat` removed.
pub fn trim_pat(s: &str, pat: Pat) -> (r: String)
    ensures
        r@ == trim_by(s@, pat.pred()),
{
    let v = chars_of(s);
    assert(v@.subrange(0, v@.len() as int) =~= v@);
    let (a, b) = trim_range(&v, &pat, 0, v.len());
    string_of(&v, a, b)
}

/// `str::trim`.
pub fn trim(s: &str) -> (r: String)
    ensures
        r@ == trim_ws(s@),
{
    trim_pat(s, Pat::Ws)
}

/// `str::trim_matches` with a single character.
pub fn trim_matches_char(s: &str, c: char) -> (r: String)
    ensures
        r@ == trim_char(s@, c),
{
    trim_pat(s, Pat::Ch(c))
}

/// `s` with every `from` replaced by `to`.
pub open spec fn replaced(s: Seq<char>, from: char, to: char) -> Seq<char> {
    Seq::new(s.len(), |i: int| if s[i] == from { to } else { s[i] })
}

/// The pieces that `str::split(sep)` yields: the text between separators,
/// empty pieces included, always at least one piece.
pub open spec fn split_on(s: Seq<char>, sep: char) -> Seq<Seq<char>>
    decreases s.len(),
{
    if s.len() == 0 {
        seq![Seq::<char>::empty()]
    } else {
        let p = split_on(s.drop_last(), sep);
        if s.last() == sep {
            p.push(Seq::<char>::empty())
        } else {
            p.update(p.len() - 1, p.last().push(s.last()))
        }
    }
}

/// The pieces of `list` with `sep` between each two.
pub open spec fn join(list: Seq<Seq<char>>, sep: Seq<char>) -> Seq<char>
    decreases list.len(),
{
    if list.len() == 0 {
        Seq::<char>::empty()
    } else if list.len() == 1 {
        list[0]
    } else {
        join(list.drop_last(), sep) + sep + list.last()
    }
}

/// `s` ends with `suf`.
pub open spec fn ends_with(s: Seq<char>, suf: Seq<char>) -> bool {
    suf.len() <= s.len() && s.subrange(s.len() - suf.len(), s.len() as int) == suf
}

/// `s` starts with `pre`.
pub open spec fn starts_with(s: Seq<char>, pre: Seq<char>) -> bool {
    pre.len() <= s.len() && s.subrange(0, pre.len() as int) == pre
}

/// What `str::trim_end_matches(suf)` leaves of `s` for a non-empty `suf`:
/// `suf` removed from the end as often as it is there.
pub open spec fn strip_suffixes(s: Seq<char>, suf: Seq<char>) -> Seq<char>
    decreases s.len(),
{
    if suf.len() > 0 && ends_with(s, suf) {
        strip_suffixes(s.subrange(0, s.len() - suf.len()), suf)
    } else {
        s
    }
}

/// Strict lexicographic order by code point, the order of `str::cmp`.
pub open spec fn lex_lt(a: Seq<char>, b: Seq<char>) -> bool
    decreases a.len(),
{
    if a.len() == 0 {
        b.len() > 0
    } else if b.len() == 0 {
        false
    } else if a[0] != b[0] {
        (a[0] as int) < (b[0] as int)
    } else {
        lex_lt(a.drop_first(), b.drop_first())
    }
}

/// Lexicographic order by code point, equality included.
pub open spec fn lex_le(a: Seq<char>, b: Seq<char>) -> bool {
    a == b || lex_lt(a, b)
}

pub proof fn lemma_lex_irreflexive(a: Seq<char>)
    ensures
        !lex_lt(a, a),
    decreases a.len(),
{
    if a.len() > 0 {
        lemma_lex_irreflexive(a.drop_first());
    }
}

pub proof fn lemma_lex_transitive(a: Seq<char>, b: Seq<char>, c: Seq<char>)
    requires
        lex_lt(a, b),
        lex_lt(b, c),
    ensures
        lex_lt(a, c),
    decreases a.len(),
{
    if a.len() > 0 && b.len() > 0 && c.len() > 0 && a[0] == b[0] && b[0] == c[0] {
        lemma_lex_transitive(a.drop_first(), b.drop_first(), c.drop_first());
    }
}

pub proof fn lemma_lex_total(a: Seq<char>, b: Seq<char>)
    ensures
        a == b || lex_lt(a, b) || lex_lt(b, a),
    decreases a.len(),
{
    if a.len() > 0 && b.len() > 0 {
        if a[0] == b[0] {
            lemma_lex_total(a.drop_first(), b.drop_first());
            if a.drop_first() == b.drop_first() {
                assert(a.drop_first().len() == a.len() - 1);
                assert(b.drop_first().len() == b.len() - 1);
                assert(a.len() == b.len());
                assert forall|i: int| 0 <= i < a.len() implies a[i] == b[i] by {
                    if i > 0 {
                        assert(a[i] == a.drop_first()[i - 1]);
                        assert(b[i] == b.drop_first()[i - 1]);
                    }
                }
                assert(a =~= b);
            }
        } else {
            assert((a[0] as int) != (b[0] as int));
        }
    } else if a.len() == 0 && b.len() == 0 {
        assert(a =~= b);
    }
}

pub proof fn lemma_lex_asymmetric(a: Seq<char>, b: Seq<char>)
    requires
        lex_lt(a, b),
    ensures
        !lex_lt(b, a),
        a != b,
{
    if lex_lt(b, a) {
        lemma_lex_transitive(a, b, a);
        lemma_lex_irreflexive(a);
    }
    lemma_lex_irreflexive(a);
}

/// Code point order of two characters.
pub fn char_lt(x: char, y: char) -> (r: bool)
    ensures
        r == ((x as int) < (y as int)),
{
    (x as u32) < (y as u32)
}

/// `lex_lt` on two character vectors.
pub fn chars_lt(a: &Vec<char>, b: &Vec<char>) -> (r: bool)
    ensures
        r == lex_lt(a@, b@),
{
    let mut i: usize = 0;
    assert(a@.skip(0) =~= a@);
    assert(b@.skip(0) =~= b@);
    while i < a.len() && i < b.len() && a[i] == b[i]
        invariant
            i <= a@.len(),
            i <= b@.len(),
            lex_lt(a@, b@) == lex_lt(a@.skip(i as int), b@.skip(i as int)),
        decreases a@.len() - i,
    {
        assert(a@.skip(i as int).drop_first() =~= a@.skip(i + 1));
        assert(b@.skip(i as int).drop_first() =~= b@.skip(i + 1));
        i += 1;
    }
    if i == a.len() {
        i < b.len()
    } else if i == b.len() {
        false
    } else {
        let x = a[i];
        let y = b[i];
        assert(a@.skip(i as int)[0] == x);
        assert(b@.skip(i as int)[0] == y);
        assert(x != y);
        assert(a@.skip(i as int).len() > 0 && b@.skip(i as int).len() > 0);
        char_lt(x, y)
    }
}

/// Equality of two character vectors.
pub fn chars_eq(a: &Vec<char>, b: &Vec<char>) -> (r: bool)
    ensures
        r == (a@ == b@),
{
    if a.len() != b.len() {
        return false;
    }
    let mut i: usize = 0;
    while i < a.len()
        invariant
            a@.len() == b@.len(),
            i <= a@.len(),
            a@.subrange(0, i as int) == b@.subrange(0, i as int),
        decreases a@.len() - i,
    {
        if a[i] != b[i] {
            return false;
        }
        assert(a@.subrange(0, i + 1) =~= a@.subrange(0, i as int).push(a@[i as int]));
        assert(b@.subrange(0, i + 1) =~= b@.subrange(0, i as int).push(b@[i as int]));
        i += 1;
    }
    assert(a@ =~= a@.subrange(0, i as int));
    assert(b@ =~= b@.subrange(0, i as int));
    true
}

/// Equality of two strings by their characters.
pub fn str_eq(a: &str, b: &str) -> (r: bool)
    ensures
        r == (a@ == b@),
{
    let va = chars_of(a);
    let vb = chars_of(b);
    chars_eq(&va, &vb)
}

/// `lex_lt` on two strings.
pub fn str_lt(a: &str, b: &str) -> (r: bool)
    ensures
        r == lex_lt(a@, b@),
{
    let va = chars_of(a);
    let vb = chars_of(b);
    chars_lt(&va, &vb)
}

/// `str::replace` of one character by another.
pub fn replace_char(s: &str, from: char, to: char) -> (r: String)
    ensures
        r@ == replaced(s@, from, to),
{
    let mut r = String::new();
    for c in it: s.chars()
        invariant
            it.seq() == s@,
            r@ == replaced(it.seq().take(it.index() as int), from, to),
    {
        let ghost k = it.index() as int;
        assert(replaced(s@.take(k + 1), from, to) =~= replaced(s@.take(k), from, to).push(
            if s@[k] == from { to } else { s@[k] },
        ));
        if c == from {
            push_char(&mut r, to);
        } else {
            push_char(&mut r, c);
        }
    }
    assert(s@.take(s@.len() as int) =~= s@);
    r
}

/// `str::split` by one character; the pieces in order.
pub fn split_char(s: &str, sep: char) -> (r: Vec<String>)
    ensures
        r.deep_view() == split_on(s@, sep),
{
    let mut parts: Vec<String> = Vec::new();
    let mut cur = String::new();
    assert(s@.take(0) =~= Seq::<char>::empty());
    assert(parts.deep_view().push(cur@) =~= seq![Seq::<char>::empty()]);
    for c in it: s.chars()
        invariant
            it.seq() == s@,
            split_on(s@.take(it.index() as int), sep) == parts.deep_view().push(cur@),
    {
        let ghost k = it.index() as int;
        let ghost before = parts.deep_view();
        assert(s@.take(k + 1).drop_last() =~= s@.take(k));
        assert(s@.take(k + 1).last() == c);
        if c == sep {
            let done = cur;
            parts.push(done);
            cur = String::new();
            assert(parts.deep_view() =~= before.push(done@));
            assert(split_on(s@.take(k + 1), sep) =~= parts.deep_view().push(cur@));
        } else {
            push_char(&mut cur, c);
            assert(split_on(s@.take(k + 1), sep) =~= parts.deep_view().push(cur@));
        }
    }
    assert(s@.take(s@.len() as int) =~= s@);
    let ghost before = parts.deep_view();
    parts.push(cur);
    assert(parts.deep_view() =~= before.push(cur@));
    parts
}

/// The strings of `list` with `sep` between each two.
pub fn join_strings(list: &Vec<String>, sep: &str) -> (r: String)
    ensures
        r@ == join(list.deep_view(), sep@),
{
    let mut r = String::new();
    let ghost dv = list.deep_view();
    let mut i: usize = 0;
    while i < list.len()
        invariant
            i <= list@.len(),
            dv == list.deep_view(),
            dv.len() == list@.len(),
            r@ == join(dv.take(i as int), sep@),
        decreases list@.len() - i,
    {
        assert(dv.take(i + 1).drop_last() =~= dv.take(i as int));
        assert(dv[i as int] == list@[i as int]@);
        if i != 0 {
            r.append(sep);
        }
        r.append(list[i].as_str());
        i += 1;
    }
    assert(dv.take(i as int) =~= dv);
    r
}

/// `str::ends_with`.
pub fn str_ends_with(s: &str, suf: &str) -> (r: bool)
    ensures
        r == ends_with(s@, suf@),
{
    let v = chars_of(s);
    let w = chars_of(suf);
    if w.len() > v.len() {
        return false;
    }
    let n = v.len();
    let off = n - w.len();
    let mut i: usize = 0;
    while i < w.len()
        invariant
            n == v@.len(),
            v@ == s@,
            w@ == suf@,
            off + w@.len() == v@.len(),
            i <= w@.len(),
            v@.subrange(off as int, off + i) == w@.subrange(0, i as int),
        decreases w@.len() - i,
    {
        if v[off + i] != w[i] {
            assert(v@.subrange(off as int, v@.len() as int)[i as int] != w@[i as int]);
            assert(v@.subrange(off as int, v@.len() as int) != w@);
            return false;
        }
        assert(v@.subrange(off as int, off + i + 1) =~= v@.subrange(off as int, off + i).push(v@[off + i]));
        assert(w@.subrange(0, i + 1) =~= w@.subrange(0, i as int).push(w@[i as int]));
        i += 1;
    }
    assert(w@.subrange(0, i as int) =~= w@);
    true
}

/// `str::starts_with`.
pub fn str_starts_with(s: &str, pre: &str) -> (r: bool)
    ensures
        r == starts_with(s@, pre@),
{
    let v = chars_of(s);
    let w = chars_of(pre);
    if w.len() > v.len() {
        return false;
    }
    let mut i: usize = 0;
    while i < w.len()
        invariant
            v@ == s@,
            w@ == pre@,
            w@.len() <= v@.len(),
            i <= w@.len(),
            v@.subrange(0, i as int) == w@.subrange(0, i as int),
        decreases w@.len() - i,
    {
        if v[i] != w[i] {
            assert(v@.subrange(0, w@.len() as int)[i as int] != w@[i as int]);
            assert(v@.subrange(0, w@.len() as int) != w@);
            return false;
        }
        assert(v@.subrange(0, i + 1) =~= v@.subrange(0, i as int).push(v@[i as int]));
        assert(w@.subrange(0, i + 1) =~= w@.subrange(0, i as int).push(w@[i as int]));
        i += 1;
    }
    assert(w@.subrange(0, i as int) =~= w@);
    true
}

/// `str::contains` with one character.
pub fn contains_char(s: &str, c: char) -> (r: bool)
    ensures
        r == s@.contains(c),
{
    for x in it: s.chars()
        invariant
            it.seq() == s@,
            forall|j: int| 0 <= j < it.index() ==> s@[j] != c,
    {
        if x == c {
            assert(s@[it.index() as int] == c);
            return true;
        }
    }
    false
}

/// The number of bytes of `c` in UTF-8 (`char::len_utf8`).
pub open spec fn char_utf8_len(c: char) -> nat {
    let u = c as int;
    if u < 0x80 {
        1
    } else if u < 0x800 {
        2
    } else if u < 0x10000 {
        3
    } else {
        4
    }
}

/// The number of bytes of `s` in UTF-8 (`str::len`).
pub open spec fn utf8_len(s: Seq<char>) -> nat
    decreases s.len(),
{
    if s.len() == 0 {
        0
    } else {
        utf8_len(s.drop_last()) + char_utf8_len(s.last())
    }
}

/// `char::len_utf8`.
pub fn char_width(c: char) -> (w: usize)
    ensures
        w as nat == char_utf8_len(c),
{
    let u = c as u32;
    if u < 0x80 {
        1
    } else if u < 0x800 {
        2
    } else if u < 0x10000 {
        3
    } else {
        4
    }
}

/// Whether the UTF-8 length of `s` is above `limit`.
pub fn utf8_len_exceeds(s: &str, limit: usize) -> (r: bool)
    ensures
        r == (utf8_len(s@) > limit),
{
    let mut total: usize = 0;
    let mut over = false;
    for c in it: s.chars()
        invariant
            it.seq() == s@,
            over == (utf8_len(s@.take(it.index() as int)) > limit),
            !over ==> total as nat == utf8_len(s@.take(it.index() as int)),
    {
        let ghost k = it.index() as int;
        assert(s@.take(k + 1).drop_last() =~= s@.take(k));
        let w = char_width(c);
        if !over {
            if w > limit - total {
                over = true;
            } else {
                total = total + w;
            }
        }
    }
    assert(s@.take(s@.len() as int) =~= s@);
    over
}

/// `str::trim_end_matches` with a non-empty string pattern.
pub fn strip_suffixes_str(s: &str, suf: &str) -> (r: String)
    ensures
        r@ == strip_suffixes(s@, suf@),
{
    let v = chars_of(s);
    let w = chars_of(suf);
    let mut end = v.len();
    assert(v@.subrange(0, end as int) =~= v@);
    if w.len() == 0 {
        return string_of(&v, 0, end);
    }
    loop
        invariant
            end <= v@.len(),
            v@ == s@,
            w@ == suf@,
            w@.len() > 0,
            strip_suffixes(s@, suf@) == strip_suffixes(v@.subrange(0, end as int), suf@),
        ensures
            end <= v@.len(),
            strip_suffixes(s@, suf@) == v@.subrange(0, end as int),
        decreases end,
    {
        let ghost cur = v@.subrange(0, end as int);
        if end < w.len() {
            assert(!ends_with(cur, w@));
            break;
        }
        let off = end - w.len();
        let mut i: usize = 0;
        let mut same = true;
        assert(v@.subrange(off as int, off as int) =~= w@.subrange(0, 0));
        while i < w.len()
            invariant
                off + w@.len() == end,
                end <= v@.len(),
                i <= w@.len(),
                same == (v@.subrange(off as int, off + i) == w@.subrange(0, i as int)),
            decreases w@.len() - i,
        {
            if v[off + i] != w[i] {
                if same {
                    assert(v@.subrange(off as int, off + i + 1)[i as int] != w@.subrange(0, i + 1)[i as int]);
                }
                same = false;
            } else if same {
                assert(v@.subrange(off as int, off + i + 1) =~= v@.subrange(off as int, off + i).push(v@[off + i]));
                assert(w@.subrange(0, i + 1) =~= w@.subrange(0, i as int).push(w@[i as int]));
            }
            if !same {
                assert(v@.subrange(off as int, off + i + 1) != w@.subrange(0, i + 1)) by {
                    if v@.subrange(off as int, off + i) != w@.subrange(0, i as int) {
                        if v@.subrange(off as int, off + i + 1) == w@.subrange(0, i + 1) {
                            assert(v@.subrange(off as int, off + i) =~= v@.subrange(off as int, off + i + 1).subrange(0, i as int));
                            assert(w@.subrange(0, i as int) =~= w@.subrange(0, i + 1).subrange(0, i as int));
                        }
                    }
                }
            }
            i += 1;
        }
        assert(w@.subrange(0, w@.len() as int) =~= w@);
        assert(cur.subrange(cur.len() - w@.len(), cur.len() as int) =~= v@.subrange(off as int, end as int));
        if !same {
            assert(!ends_with(cur, w@));
            break;
        }
        assert(cur.subrange(0, cur.len() - w@.len()) =~= v@.subrange(0, off as int));
        end = off;
    }
    string_of(&v, 0, end)
}

/// `str::strip_suffix`: what is before `suf` when `s` ends with it.
pub fn strip_suffix_once(s: &str, suf: &str) -> (r: Option<String>)
    ensures
        match r {
            Some(p) => ends_with(s@, suf@) && p@ == s@.subrange(0, s@.len() - suf@.len()),
            None => !ends_with(s@, suf@),
        },
{
    if str_ends_with(s, suf) {
        let v = chars_of(s);
        let w = chars_of(suf);
        Some(string_of(&v, 0, v.len() - w.len()))
    } else {
        None
    }
}

/// The first piece of `str::split` by one character.
pub fn first_piece(s: &str, sep: char) -> (r: String)
    ensures
        r@ == split_on(s@, sep)[0],
{
    let parts = split_char(s, sep);
    proof {
        lemma_split_nonempty(s@, sep);
    }
    assert(parts.deep_view()[0] == parts@[0]@);
    parts[0].clone()
}

/// The last piece of `str::split` by one character (`rsplit(sep).next()`).
pub fn last_piece(s: &str, sep: char) -> (r: String)
    ensures
        r@ == split_on(s@, sep).last(),
{
    let parts = split_char(s, sep);
    proof {
        lemma_split_nonempty(s@, sep);
    }
    let n = parts.len();
    assert(parts.deep_view()[n - 1] == parts@[n - 1]@);
    parts[n - 1].clone()
}

/// `str::split` always yields at least one piece.
pub proof fn lemma_split_nonempty(s: Seq<char>, sep: char)
    ensures
        split_on(s, sep).len() >= 1,
    decreases s.len(),
{
    if s.len() > 0 {
        lemma_split_nonempty(s.drop_last(), sep);
    }
}

/// The index of the first `c` in `s`.
pub open spec fn first_index(s: Seq<char>, c: char) -> Option<int>
    decreases s.len(),
{
    if s.len() == 0 {
        None
    } else if s[0] == c {
        Some(0)
    } else {
        match first_index(s.drop_first(), c) {
            Some(i) => Some(i + 1),
            None => None,
        }
    }
}

/// `first_index` finds the first occurrence, and only when there is one.
pub proof fn lemma_first_index(s: Seq<char>, c: char)
    ensures
        match first_index(s, c) {
            Some(i) => 0 <= i < s.len() && s[i] == c && forall|j: int| 0 <= j < i ==> s[j] != c,
            None => !s.contains(c),
        },
    decreases s.len(),
{
    if s.len() > 0 {
        lemma_first_index(s.drop_first(), c);
        if s[0] != c {
            match first_index(s.drop_first(), c) {
                Some(i) => {
                    assert forall|j: int| 0 <= j < i + 1 implies s[j] != c by {
                        if j > 0 {
                            assert(s[j] == s.drop_first()[j - 1]);
                        }
                    }
                },
                None => {
                    assert forall|j: int| 0 <= j < s.len() implies s[j] != c by {
                        if j > 0 {
                            assert(s[j] == s.drop_first()[j - 1]);
                        }
                    }
                },
            }
        }
    }
}

/// `str::split_once` with one character: what is before and after its first occurrence.
pub fn split_once_char(s: &str, c: char) -> (r: Option<(String, String)>)
    ensures
        match first_index(s@, c) {
            Some(i) => r matches Some((a, b)) && a@ == s@.take(i) && b@ == s@.skip(i + 1),
            None => r is None,
        },
{
    let v = chars_of(s);
    let mut i: usize = 0;
    assert(v@.skip(0) =~= v@);
    while i < v.len() && v[i] != c
        invariant
            i <= v@.len(),
            v@ == s@,
            first_index(s@, c) == match first_index(v@.skip(i as int), c) {
                Some(j) => Some(j + i),
                None => None,
            },
        decreases v@.len() - i,
    {
        assert(v@.skip(i as int).drop_first() =~= v@.skip(i + 1));
        i += 1;
    }
    if i == v.len() {
        None
    } else {
        assert(v@.skip(i as int)[0] == c);
        Some((string_of(&v, 0, i), string_of(&v, i + 1, v.len())))
    }
}

/// Splitting a text without the separator gives the text itself.
pub proof fn lemma_split_without_sep(s: Seq<char>, sep: char)
    requires
        !s.contains(sep),
    ensures
        split_on(s, sep) == seq![s],
    decreases s.len(),
{
    if s.len() > 0 {
        assert(!s.drop_last().contains(sep)) by {
            if s.drop_last().contains(sep) {
                let j = choose|j: int| 0 <= j < s.drop_last().len() && s.drop_last()[j] == sep;
                assert(s[j] == sep);
            }
        }
        lemma_split_without_sep(s.drop_last(), sep);
        assert(s.last() != sep) by {
            assert(s[s.len() - 1] == s.last());
        }
        assert(s.drop_last().push(s.last()) =~= s);
        assert(split_on(s, sep) =~= seq![s]);
    } else {
        assert(s =~= Seq::<char>::empty());
    }
}

/// Trimming leaves a text alone when neither its first nor its last character matches.
pub proof fn lemma_trim_untouched(s: Seq<char>, p: spec_fn(char) -> bool)
    requires
        s.len() > 0,
        !p(s[0]),
        !p(s.last()),
    ensures
        trim_by(s, p) == s,
{
}

/// A string that starts with the separator splits into an empty first piece and more.
pub proof fn lemma_split_leading_sep(s: Seq<char>, sep: char)
    requires
        s.len() > 0,
        s[0] == sep,
    ensures
        split_on(s, sep).len() >= 2,
        split_on(s, sep)[0] == Seq::<char>::empty(),
    decreases s.len(),
{
    if s.len() == 1 {
        assert(s.last() == sep);
        assert(s.drop_last() =~= Seq::<char>::empty());
    } else {
        assert(s.drop_last()[0] == sep);
        lemma_split_leading_sep(s.drop_last(), sep);
    }
}

/// A string that ends with the separator splits with an empty last piece.
pub proof fn lemma_split_trailing_sep(s: Seq<char>, sep: char)
    requires
        s.len() > 0,
        s.last() == sep,
    ensures
        split_on(s, sep).last() == Seq::<char>::empty(),
{
}

/// Two pieces without the separator, joined by it, split back into those pieces.
pub proof fn lemma_split_two(a: Seq<char>, b: Seq<char>, sep: char)
    requires
        !a.contains(sep),
        !b.contains(sep),
    ensures
        split_on(a + seq![sep] + b, sep) == seq![a, b],
    decreases b.len(),
{
    let s = a + seq![sep] + b;
    if b.len() == 0 {
        assert(s.drop_last() =~= a);
        assert(s.last() == sep);
        lemma_split_without_sep(a, sep);
        assert(b =~= Seq::<char>::empty());
        assert(seq![a].push(Seq::<char>::empty()) =~= seq![a, b]);
    } else {
        assert(!b.drop_last().contains(sep)) by {
            if b.drop_last().contains(sep) {
                let j = choose|j: int| 0 <= j < b.drop_last().len() && b.drop_last()[j] == sep;
                assert(b[j] == sep);
            }
        }
        lemma_split_two(a, b.drop_last(), sep);
        assert(s.drop_last() =~= a + seq![sep] + b.drop_last());
        assert(s.last() == b.last());
        assert(b.last() != sep) by {
            assert(b[b.len() - 1] == b.last());
        }
        assert(b.drop_last().push(b.last()) =~= b);
        assert(seq![a, b.drop_last()].update(1, b.drop_last().push(b.last())) =~= seq![a, b]);
    }
}

/// Splitting two texts joined by the separator gives the pieces of the first, then
/// those of the second.
pub proof fn lemma_split_join(a: Seq<char>, b: Seq<char>, sep: char)
    ensures
        split_on(a + seq![sep] + b, sep) == split_on(a, sep) + split_on(b, sep),
    decreases b.len(),
{
    let s = a + seq![sep] + b;
    if b.len() == 0 {
        assert(s.drop_last() =~= a);
        assert(s.last() == sep);
        assert(b =~= Seq::<char>::empty());
        assert(split_on(a, sep).push(Seq::<char>::empty()) =~= split_on(a, sep) + seq![Seq::<char>::empty()]);
    } else {
        lemma_split_join(a, b.drop_last(), sep);
        lemma_split_nonempty(b.drop_last(), sep);
        assert(s.drop_last() =~= a + seq![sep] + b.drop_last());
        assert(s.last() == b.last());
        let pa = split_on(a, sep);
        let pb = split_on(b.drop_last(), sep);
        if b.last() == sep {
            assert((pa + pb).push(Seq::<char>::empty()) =~= pa + pb.push(Seq::<char>::empty()));
        } else {
            assert((pa + pb).update((pa + pb).len() - 1, (pa + pb).last().push(b.last())) =~= pa + pb.update(
                pb.len() - 1,
                pb.last().push(b.last()),
            ));
        }
    }
}

/// `str::trim_end_matches` with a character pattern.
pub fn trim_end_pat(s: &str, pat: Pat) -> (r: String)
    ensures
        r@ == trim_end_by(s@, pat.pred()),
{
    let v = chars_of(s);
    let ghost p = pat.pred();
    let mut b = v.len();
    assert(v@.subrange(0, b as int) =~= v@);
    while b > 0 && pat.test(v[b - 1])
        invariant
            b <= v@.len(),
            v@ == s@,
            p == pat.pred(),
            trim_end_by(s@, p) == trim_end_by(v@.subrange(0, b as int), p),
        decreases b,
    {
        assert(v@.subrange(0, b as int).drop_last() =~= v@.subrange(0, b - 1));
        b -= 1;
    }
    string_of(&v, 0, b)
}

/// `str::strip_prefix`: what follows `pre` when `s` starts with it.
pub fn strip_prefix_once(s: &str, pre: &str) -> (r: Option<String>)
    ensures
        match r {
            Some(x) => starts_with(s@, pre@) && x@ == s@.skip(pre@.len() as int),
            None => !starts_with(s@, pre@),
        },
{
    if str_starts_with(s, pre) {
        let v = chars_of(s);
        let w = chars_of(pre);
        Some(string_of(&v, w.len(), v.len()))
    } else {
        None
    }
}

/// No piece of `str::split` holds the separator.
pub proof fn lemma_split_pieces(s: Seq<char>, sep: char)
    ensures
        forall|i: int| 0 <= i < split_on(s, sep).len() ==> !(#[trigger] split_on(s, sep)[i]).contains(sep),
    decreases s.len(),
{
    if s.len() > 0 {
        lemma_split_pieces(s.drop_last(), sep);
        lemma_split_nonempty(s.drop_last(), sep);
        let p = split_on(s.drop_last(), sep);
        if s.last() != sep {
            let q = p.last().push(s.last());
            assert(!q.contains(sep)) by {
                assert(!p[p.len() - 1].contains(sep));
                if q.contains(sep) {
                    let j = choose|j: int| 0 <= j < q.len() && q[j] == sep;
                    if j < q.len() - 1 {
                        assert(p.last()[j] == sep);
                    }
                }
            }
            assert forall|i: int| 0 <= i < split_on(s, sep).len() implies !(#[trigger] split_on(s, sep)[i]).contains(sep) by {
                if i < p.len() - 1 {
                    assert(split_on(s, sep)[i] == p[i]);
                }
            }
        } else {
            assert forall|i: int| 0 <= i < split_on(s, sep).len() implies !(#[trigger] split_on(s, sep)[i]).contains(sep) by {
                if i < p.len() {
                    assert(split_on(s, sep)[i] == p[i]);
                } else {
                    assert(split_on(s, sep)[i] =~= Seq::<char>::empty());
                }
            }
        }
    }
}

} // verus!
