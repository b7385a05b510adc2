//! Character-level helpers: escaping, trimming, previews and decimal numbers.
use vstd::prelude::*;

verus! {

/// Longest preview, in characters, shown for a body in the overview.
pub const PREVIEW_LEN: usize = 80;

/// What a single character becomes once control characters are escaped.
pub open spec fn escape_char(c: char) -> Seq<char> {
    if c == '\n' {
        seq!['\\', 'n']
    } else if c == '\r' {
        seq!['\\', 'r']
    } else if c == '\t' {
        seq!['\\', 't']
    } else {
        seq![c]
    }
}

/// Newline, carriage return and tab replaced by their two-character escapes.
pub open spec fn escaped(s: Seq<char>) -> Seq<char>
    decreases s.len(),
{
    if s.len() == 0 {
        Seq::empty()
    } else {
        escaped(s.drop_last()) + escape_char(s.last())
    }
}

/// Unicode White_Space, as `char::is_whitespace` defines it.
pub open spec fn is_space(c: char) -> bool {
    let u = c as u32;
    (0x09 <= u && u <= 0x0d) || u == 0x20 || u == 0x85 || u == 0xa0 || u == 0x1680 || (0x2000
        <= u && u <= 0x200a) || u == 0x2028 || u == 0x2029 || u == 0x202f || u == 0x205f || u
        == 0x3000
}

/// Index of the first character that is not white space (or the length).
pub open spec fn first_non_space(s: Seq<char>, i: int) -> int
    decreases s.len() - i,
{
    if i < 0 || i >= s.len() {
        s.len() as int
    } else if is_space(s[i]) {
        first_non_space(s, i + 1)
    } else {
        i
    }
}

/// One past the last character that is not white space (or `lo`).
pub open spec fn end_non_space(s: Seq<char>, lo: int, j: int) -> int
    decreases j - lo,
{
    if j <= lo || j > s.len() {
        lo
    } else if is_space(s[j - 1]) {
        end_non_space(s, lo, j - 1)
    } else {
        j
    }
}

/// `s` without leading and trailing white space.
pub open spec fn trimmed(s: Seq<char>) -> Seq<char> {
    let lo = first_non_space(s, 0);
    s.subrange(lo, end_non_space(s, lo, s.len() as int))
}

/// The first `n` characters of `s`, or all of it when it is shorter.
pub open spec fn take(s: Seq<char>, n: nat) -> Seq<char> {
    if s.len() <= n {
        s
    } else {
        s.subrange(0, n as int)
    }
}

/// The preview of a body: escaped, cut to its first characters, trimmed.
pub open spec fn preview(s: Seq<char>) -> Seq<char> {
    trimmed(take(escaped(s), PREVIEW_LEN as nat))
}

/// Decimal digit for `d < 10`.
pub open spec fn digit(d: nat) -> char {
    if d == 0 { '0' }
    else if d == 1 { '1' }
    else if d == 2 { '2' }
    else if d == 3 { '3' }
    else if d == 4 { '4' }
    else if d == 5 { '5' }
    else if d == 6 { '6' }
    else if d == 7 { '7' }
    else if d == 8 { '8' }
    else { '9' }
}

/// Decimal notation of `n`, without leading zeros.
pub open spec fn decimal(n: nat) -> Seq<char>
    decreases n,
{
    if n < 10 {
        seq![digit(n)]
    } else {
        decimal(n / 10).push(digit(n % 10))
    }
}

/// `s` padded on the right with spaces to at least `w` characters.
pub open spec fn padded(s: Seq<char>, w: nat) -> Seq<char> {
    if s.len() >= w {
        s
    } else {
        s + Seq::new((w - s.len()) as nat, |i: int| ' ')
    }
}

/// Relies on `str::chars`: the characters of a string, in order.
#[verifier::external_body]
pub fn chars_of(s: &str) -> (r: Vec<char>)
    ensures
        r@ == s@,
{
    s.chars().collect()
}

/// Relies on `FromIterator<char>` for `String`: the string of these characters.
#[verifier::external_body]
pub fn string_of(v: &Vec<char>) -> (r: String)
    ensures
        r@ == v@,
{
    v.iter().collect()
}

/// Appends every character of `s` to `out`.
pub fn push_chars(out: &mut Vec<char>, s: &Vec<char>)
    ensures
        final(out)@ == old(out)@ + s@,
{
    let mut i: usize = 0;
    while i < s.len()
        invariant
            i <= s.len(),
            out@ == old(out)@ + s@.subrange(0, i as int),
        decreases s.len() - i,
    {
        out.push(s[i]);
        i = i + 1;
        assert(s@.subrange(0, i as int) =~= s@.subrange(0, i - 1).push(s@[i - 1]));
    }
    assert(s@.subrange(0, s.len() as int) =~= s@);
}

/// Appends the characters of `s` to `out`.
pub fn push_str(out: &mut Vec<char>, s: &str)
    ensures
        final(out)@ == old(out)@ + s@,
{
    let cs = chars_of(s);
    push_chars(out, &cs);
}

/// Replaces newline, carriage return and tab by `\n`, `\r` and `\t`.
pub fn escape(s: &Vec<char>) -> (r: Vec<char>)
    ensures
        r@ == escaped(s@),
{
    let mut out: Vec<char> = Vec::new();
    let mut i: usize = 0;
    while i < s.len()
        invariant
            i <= s.len(),
            out@ == escaped(s@.subrange(0, i as int)),
        decreases s.len() - i,
    {
        let c = s[i];
        proof {
            let p = s@.subrange(0, i + 1);
            assert(p.drop_last() =~= s@.subrange(0, i as int));
            assert(p.last() == c);
        }
        if c == '\n' {
            out.push('\\');
            out.push('n');
        } else if c == '\r' {
            out.push('\\');
            out.push('r');
        } else if c == '\t' {
            out.push('\\');
            out.push('t');
        } else {
            out.push(c);
        }
        proof {
            let p = s@.subrange(0, i + 1);
            assert(out@ =~= escaped(p.drop_last()) + escape_char(c));
        }
        i = i + 1;
    }
    assert(s@.subrange(0, s.len() as int) =~= s@);
    out
}

/// Whether `c` is white space (`char::is_whitespace`).
pub fn space(c: char) -> (r: bool)
    ensures
        r == is_space(c),
{
    let u = c as u32;
    (0x09 <= u && u <= 0x0d) || u == 0x20 || u == 0x85 || u == 0xa0 || u == 0x1680 || (0x2000
        <= u && u <= 0x200a) || u == 0x2028 || u == 0x2029 || u == 0x202f || u == 0x205f || u
        == 0x3000
}

/// The first `n` characters of `s`, without leading and trailing white space.
pub fn trim_prefix(s: &Vec<char>, n: usize) -> (r: Vec<char>)
    ensures
        r@ == trimmed(take(s@, n as nat)),
{
    let t = if s.len() <= n { s.len() } else { n };
    let ghost p = take(s@, n as nat);
    assert(p =~= s@.subrange(0, t as int));
    let mut lo: usize = 0;
    while lo < t && space(s[lo])
        invariant
            lo <= t,
            t == p.len(),
            t <= s.len(),
            forall|k: int| 0 <= k < t ==> p[k] == s@[k],
            first_non_space(p, 0) == first_non_space(p, lo as int),
        decreases t - lo,
    {
        lo = lo + 1;
    }
    assert(first_non_space(p, 0) == lo);
    let mut hi: usize = t;
    while hi > lo && space(s[hi - 1])
        invariant
            lo <= hi <= t,
            t == p.len(),
            t <= s.len(),
            forall|k: int| 0 <= k < t ==> p[k] == s@[k],
            end_non_space(p, lo as int, t as int) == end_non_space(p, lo as int, hi as int),
        decreases hi - lo,
    {
        hi = hi - 1;
    }
    assert(end_non_space(p, lo as int, t as int) == hi);
    let mut out: Vec<char> = Vec::new();
    let mut i: usize = lo;
    while i < hi
        invariant
            lo <= i <= hi <= t,
            t == p.len(),
            t <= s.len(),
            forall|k: int| 0 <= k < t ==> p[k] == s@[k],
            out@ == p.subrange(lo as int, i as int),
        decreases hi - i,
    {
        out.push(s[i]);
        i = i + 1;
        assert(out@ =~= p.subrange(lo as int, i as int));
    }
    out
}

/// Escapes control characters in `text`, keeps at most `maxlen` characters
/// of the result and trims white space from both ends.
pub fn cut_text(text: &str, maxlen: usize) -> (r: String)
    ensures
        r@ == trimmed(take(escaped(text@), maxlen as nat)),
{
    let cs = chars_of(text);
    let e = escape(&cs);
    let t = trim_prefix(&e, maxlen);
    string_of(&t)
}

/// Appends the decimal notation of `n` to `out`.
pub fn push_decimal(out: &mut Vec<char>, n: u64)
    ensures
        final(out)@ == old(out)@ + decimal(n as nat),
    decreases n,
{
    if n >= 10 {
        push_decimal(out, n / 10);
    }
    let d = n % 10;
    let c = if d == 0 { '0' }
        else if d == 1 { '1' }
        else if d == 2 { '2' }
        else if d == 3 { '3' }
        else if d == 4 { '4' }
        else if d == 5 { '5' }
        else if d == 6 { '6' }
        else if d == 7 { '7' }
        else if d == 8 { '8' }
        else { '9' };
    out.push(c);
    proof {
        if n >= 10 {
            assert(decimal(n as nat) == decimal((n / 10) as nat).push(digit((n % 10) as nat)));
        }
    }
    assert(final(out)@ =~= old(out)@ + decimal(n as nat));
}

/// Appends `s` followed by spaces up to `w` characters in all.
pub fn push_padded(out: &mut Vec<char>, s: &Vec<char>, w: usize)
    ensures
        final(out)@ == old(out)@ + padded(s@, w as nat),
{
    push_chars(out, s);
    let mut k: usize = s.len();
    while k < w
        invariant
            s.len() <= k,
            s.len() < w ==> k <= w,
            s.len() >= w ==> k == s.len(),
            out@ == old(out)@ + s@ + Seq::new((k - s.len()) as nat, |i: int| ' '),
        decreases w - k,
    {
        out.push(' ');
        k = k + 1;
        assert(out@ =~= old(out)@ + s@ + Seq::new((k - s.len()) as nat, |i: int| ' '));
    }
    if s.len() >= w {
        assert(Seq::new((k - s.len()) as nat, |i: int| ' ') =~= Seq::<char>::empty());
    }
    assert(out@ =~= old(out)@ + padded(s@, w as nat));
}

proof fn lemma_escaped_plain(s: Seq<char>)
    ensures
        forall|k: int| 0 <= k < escaped(s).len() ==> escaped(s)[k] != '\n' && escaped(s)[k] != '\r'
            && escaped(s)[k] != '\t',
    decreases s.len(),
{
    if s.len() > 0 {
        lemma_escaped_plain(s.drop_last());
        let a = escaped(s.drop_last());
        let b = escape_char(s.last());
        assert forall|k: int| 0 <= k < escaped(s).len() implies escaped(s)[k] != '\n' && escaped(s)[k]
            != '\r' && escaped(s)[k] != '\t' by {
            if k >= a.len() {
                assert(escaped(s)[k] == b[k - a.len()]);
            } else {
                assert(escaped(s)[k] == a[k]);
            }
        }
    }
}

proof fn lemma_escaped_identity(s: Seq<char>)
    requires
        forall|k: int| 0 <= k < s.len() ==> s[k] != '\n' && s[k] != '\r' && s[k] != '\t',
    ensures
        escaped(s) == s,
    decreases s.len(),
{
    if s.len() > 0 {
        lemma_escaped_identity(s.drop_last());
        assert(s.drop_last().push(s.last()) =~= s);
    }
}

/// Escaping leaves no newline, carriage return or tab behind, so a second
/// pass changes nothing: the escape is applied once, and once is all it does.
pub proof fn lemma_escape_twice_same(s: Seq<char>)
    ensures
        escaped(escaped(s)) == escaped(s),
{
    lemma_escaped_plain(s);
    lemma_escaped_identity(escaped(s));
}

proof fn lemma_first_non_space_bounds(s: Seq<char>, i: int)
    requires
        0 <= i <= s.len(),
    ensures
        i <= first_non_space(s, i) <= s.len(),
    decreases s.len() - i,
{
    if i < s.len() && is_space(s[i]) {
        lemma_first_non_space_bounds(s, i + 1);
    }
}

proof fn lemma_end_non_space_bounds(s: Seq<char>, lo: int, j: int)
    requires
        0 <= lo <= j <= s.len(),
    ensures
        lo <= end_non_space(s, lo, j) <= j,
    decreases j - lo,
{
    if j > lo && is_space(s[j - 1]) {
        lemma_end_non_space_bounds(s, lo, j - 1);
    }
}

/// A preview is a run of consecutive characters of the escaped text, at most
/// `PREVIEW_LEN` of them: it is cut by characters, never inside one.
pub proof fn lemma_preview_bounded(s: Seq<char>)
    ensures
        preview(s).len() <= PREVIEW_LEN,
        exists|i: int, j: int|
            0 <= i <= j <= escaped(s).len() && j - i <= PREVIEW_LEN && #[trigger] escaped(s).subrange(i, j)
                == preview(s),
{
    let e = escaped(s);
    let t = take(e, PREVIEW_LEN as nat);
    let lo = first_non_space(t, 0);
    lemma_first_non_space_bounds(t, 0);
    let hi = end_non_space(t, lo, t.len() as int);
    lemma_end_non_space_bounds(t, lo, t.len() as int);
    assert(e.subrange(lo, hi) =~= preview(s));
}

} // verus!
