use vstd::prelude::*;
use vstd::std_specs::iter::IteratorSpec;
use vstd::string::StringExecFns;

use crate::primitives::{is_whitespace, push_char, unicode_white_space};

verus! {

broadcast use vstd::string::group_string_axioms;

/// The characters of `s`, in order.
pub fn chars_of(s: &str) -> (res: Vec<char>)
    ensures
        res@ == s@,
{
    let mut out: Vec<char> = Vec::new();
    for c in iter: s.chars()
        invariant
            out@ == iter.seq().take(iter.index() as int),
    {
        out.push(c);
    }
    out
}


/// The ASCII character of a decimal digit.
pub open spec fn digit_char(d: nat) -> char
    recommends
        d < 10,
{
    (d + 48) as char
}

/// The decimal representation of a natural number, without leading zeros.
pub open spec fn decimal(n: nat) -> Seq<char>
    decreases n,
{
    if n < 10 {
        seq![digit_char(n)]
    } else {
        decimal(n / 10).push(digit_char(n % 10))
    }
}

/// The decimal representation of an integer, with a leading '-' when negative.
pub open spec fn signed_decimal(n: int) -> Seq<char> {
    if n < 0 {
        seq!['-'] + decimal((-n) as nat)
    } else {
        decimal(n as nat)
    }
}

/// Appends the decimal representation of `n` to `out`.
pub fn push_decimal_u64(out: &mut String, n: u64)
    ensures
        final(out)@ == old(out)@ + decimal(n as nat),
    decreases n,
{
    if n >= 10 {
        push_decimal_u64(out, n / 10);
    }
    let d: u64 = n % 10;
    let c: char = if d == 0 { '0' } else if d == 1 { '1' } else if d == 2 { '2' } else if d == 3 {
        '3'
    } else if d == 4 { '4' } else if d == 5 { '5' } else if d == 6 { '6' } else if d == 7 {
        '7'
    } else if d == 8 { '8' } else { '9' };
    push_char(out, c);
}

/// Appends the decimal representation of `n`, with '-' when negative.
pub fn push_decimal_i64(out: &mut String, n: i64)
    ensures
        final(out)@ == old(out)@ + signed_decimal(n as int),
{
    if n < 0 {
        push_char(out, '-');
        let m: i128 = 0i128 - (n as i128);
        push_decimal_u64(out, m as u64);
        assert(seq!['-'] + decimal((-n) as nat) == seq!['-'] + decimal(m as nat));
    } else {
        push_decimal_u64(out, n as u64);
    }
}


/// Whether `c` is white space as `char::is_whitespace` tells it: tab through
/// carriage return and space among ASCII characters, the Unicode White_Space
/// property beyond.
pub open spec fn white_space(c: char) -> bool {
    if (c as u32) < 128 {
        c == ' ' || ('\t' <= c && c <= '\r')
    } else {
        unicode_white_space(c)
    }
}

/// Tests white space, as `white_space` states it.
pub fn is_white_space(c: char) -> (b: bool)
    ensures
        b == white_space(c),
{
    is_whitespace(c)
}

/// `s` without its leading white space.
pub open spec fn trim_start(s: Seq<char>) -> Seq<char>
    decreases s.len(),
{
    if s.len() > 0 && white_space(s[0]) {
        trim_start(s.drop_first())
    } else {
        s
    }
}

/// `s` without its trailing white space.
pub open spec fn trim_end(s: Seq<char>) -> Seq<char>
    decreases s.len(),
{
    if s.len() > 0 && white_space(s.last()) {
        trim_end(s.drop_last())
    } else {
        s
    }
}

/// `s` without leading and trailing white space (what `str::trim` returns).
pub open spec fn trim(s: Seq<char>) -> Seq<char> {
    trim_end(trim_start(s))
}

/// A string holding `v[lo..hi]`.
pub fn string_from_range(v: &Vec<char>, lo: usize, hi: usize) -> (res: String)
    requires
        lo <= hi <= v@.len(),
    ensures
        res@ == v@.subrange(lo as int, hi as int),
{
    let mut out = String::new();
    let mut i = lo;
    while i < hi
        invariant
            lo <= i <= hi,
            hi <= v@.len(),
            out@ == v@.subrange(lo as int, i as int),
        decreases hi - i,
    {
        push_char(&mut out, v[i]);
        proof {
            assert(v@.subrange(lo as int, i + 1) =~= v@.subrange(lo as int, i as int).push(v@[i as int]));
        }
        i = i + 1;
    }
    out
}

/// A string holding the characters of `v`.
pub fn string_from_chars(v: &Vec<char>) -> (res: String)
    ensures
        res@ == v@,
{
    let s = string_from_range(v, 0, v.len());
    proof {
        assert(v@.subrange(0, v@.len() as int) =~= v@);
    }
    s
}

/// `s` with leading and trailing white space removed.
pub fn trim_str(s: &str) -> (res: String)
    ensures
        res@ == trim(s@),
{
    let cs = chars_of(s);
    let n = cs.len();
    let mut i: usize = 0;
    proof {
        assert(cs@.subrange(0, n as int) =~= cs@);
    }
    while i < n && is_white_space(cs[i])
        invariant
            i <= n,
            n == cs@.len(),
            trim_start(cs@) == trim_start(cs@.subrange(i as int, n as int)),
        decreases n - i,
    {
        proof {
            assert(cs@.subrange(i as int, n as int).drop_first() =~= cs@.subrange(i + 1, n as int));
        }
        i = i + 1;
    }
    assert(trim_start(cs@) == cs@.subrange(i as int, n as int));
    let mut j: usize = n;
    while j > i && is_white_space(cs[j - 1])
        invariant
            i <= j <= n,
            n == cs@.len(),
            trim_end(cs@.subrange(i as int, n as int)) == trim_end(cs@.subrange(i as int, j as int)),
        decreases j,
    {
        proof {
            assert(cs@.subrange(i as int, j as int).drop_last() =~= cs@.subrange(i as int, j - 1));
        }
        j = j - 1;
    }
    string_from_range(&cs, i, j)
}

/// Whether two character vectors hold the same characters.
pub fn chars_equal(a: &Vec<char>, b: &Vec<char>) -> (res: bool)
    ensures
        res == (a@ == b@),
{
    if a.len() != b.len() {
        return false;
    }
    let mut i: usize = 0;
    while i < a.len()
        invariant
            a@.len() == b@.len(),
            i <= a@.len(),
            forall|k: int| 0 <= k < i ==> a@[k] == b@[k],
        decreases a@.len() - i,
    {
        if a[i] != b[i] {
            return false;
        }
        i = i + 1;
    }
    assert(a@ =~= b@);
    true
}

/// Whether two strings hold the same characters.
pub fn str_equal(a: &str, b: &str) -> (res: bool)
    ensures
        res == (a@ == b@),
{
    chars_equal(&chars_of(a), &chars_of(b))
}

/// Whether `s` ends with `suffix`.
pub fn ends_with(s: &str, suffix: &str) -> (res: bool)
    ensures
        res == (suffix@.len() <= s@.len() && s@.subrange(s@.len() - suffix@.len(), s@.len() as int)
            == suffix@),
{
    let a = chars_of(s);
    let b = chars_of(suffix);
    if b.len() > a.len() {
        return false;
    }
    let off = a.len() - b.len();
    let mut i: usize = 0;
    while i < b.len()
        invariant
            off + b@.len() == a@.len(),
            a@ == s@,
            b@ == suffix@,
            a@.len() == a.len(),
            i <= b@.len(),
            forall|k: int| 0 <= k < i ==> a@[off + k] == b@[k],
        decreases b@.len() - i,
    {
        if a[off + i] != b[i] {
            assert(a@.subrange(off as int, a@.len() as int)[i as int] == a@[off + i]);
            return false;
        }
        i = i + 1;
    }
    assert(a@.subrange(off as int, a@.len() as int) =~= b@);
    true
}

/// A string holding the characters of `head` followed by those of `tail`.
pub fn concat_str(head: &str, tail: &str) -> (res: String)
    ensures
        res@ == head@ + tail@,
{
    let mut s = String::from_str(head);
    s.append(tail);
    s
}

/// Appends all characters of `s` to `out`.
pub fn push_chars(out: &mut String, s: &Vec<char>)
    ensures
        final(out)@ == old(out)@ + s@,
{
    let ghost start = out@;
    let mut i: usize = 0;
    while i < s.len()
        invariant
            i <= s@.len(),
            out@ == start + s@.subrange(0, i as int),
        decreases s@.len() - i,
    {
        push_char(out, s[i]);
        proof {
            assert(s@.subrange(0, i + 1) =~= s@.subrange(0, i as int).push(s@[i as int]));
        }
        i = i + 1;
    }
    assert(s@.subrange(0, s@.len() as int) =~= s@);
}


/// The parts joined with `sep` between neighbours (what `[String]::join` gives).
pub open spec fn join(parts: Seq<Seq<char>>, sep: Seq<char>) -> Seq<char>
    decreases parts.len(),
{
    if parts.len() == 0 {
        Seq::empty()
    } else if parts.len() == 1 {
        parts[0]
    } else {
        join(parts.drop_last(), sep) + sep + parts.last()
    }
}


/// The views of a sequence of strings.
pub open spec fn views(v: Seq<String>) -> Seq<Seq<char>> {
    v.map_values(|x: String| x@)
}

/// Joins strings with `sep` between neighbours.
pub fn join_strings(parts: &Vec<String>, sep: &str) -> (res: String)
    ensures
        res@ == join(views(parts@), sep@),
{
    let ghost ps = views(parts@);
    let mut out = String::new();
    let mut i: usize = 0;
    while i < parts.len()
        invariant
            i <= parts@.len(),
            ps == views(parts@),
            out@ == join(ps.take(i as int), sep@),
        decreases parts@.len() - i,
    {
        proof {
            assert(ps.take(i + 1).drop_last() =~= ps.take(i as int));
            if i == 0 {
                assert(ps.take(1) =~= seq![ps[0]]);
            }
        }
        if i > 0 {
            out.append(sep);
        }
        out.append(parts[i].as_str());
        i = i + 1;
    }
    proof {
        assert(ps.take(parts@.len() as int) =~= ps);
    }
    out
}

/// The pieces of `s` between occurrences of `sep` (what `str::split` yields
/// for a character pattern); there is always at least one piece.
pub open spec fn split_on(s: Seq<char>, sep: char) -> Seq<Seq<char>>
    decreases s.len(),
{
    if s.len() == 0 {
        seq![Seq::empty()]
    } else {
        let p = split_on(s.drop_last(), sep);
        if s.last() == sep {
            p.push(Seq::empty())
        } else {
            p.update(p.len() - 1, p.last().push(s.last()))
        }
    }
}

/// Splitting always yields at least one piece.
pub proof fn lemma_split_nonempty(s: Seq<char>, sep: char)
    ensures
        split_on(s, sep).len() >= 1,
        split_on(s, sep).len() == 1 <==> !s.contains(sep),
    decreases s.len(),
{
    if s.len() > 0 {
        lemma_split_nonempty(s.drop_last(), sep);
        if s.drop_last().contains(sep) {
            let k = choose|k: int| 0 <= k < s.drop_last().len() && s.drop_last()[k] == sep;
            assert(s[k] == sep);
        }
        if s.contains(sep) && s.last() != sep {
            let k = choose|k: int| 0 <= k < s.len() && s[k] == sep;
            assert(s.drop_last()[k] == sep);
        }
    }
}

/// Splits `s` at every occurrence of `sep`.
pub fn split_str(s: &str, sep: char) -> (res: Vec<String>)
    ensures
        views(res@) == split_on(s@, sep),
{
    let cs = chars_of(s);
    let mut done: Vec<String> = Vec::new();
    let mut current: Vec<char> = Vec::new();
    let mut i: usize = 0;
    while i < cs.len()
        invariant
            i <= cs@.len(),
            cs@ == s@,
            split_on(cs@.take(i as int), sep) == views(done@).push(current@),
        decreases cs@.len() - i,
    {
        let c = cs[i];
        proof {
            assert(cs@.take(i + 1).drop_last() =~= cs@.take(i as int));
        }
        if c == sep {
            let piece = string_from_chars(&current);
            let ghost prev = done@;
            done.push(piece);
            current = Vec::new();
            proof {
                assert(views(done@) =~= views(prev).push(views(done@).last()));
                assert(views(done@).push(current@) =~= split_on(cs@.take(i + 1), sep));
            }
        } else {
            current.push(c);
            proof {
                assert(views(done@).push(current@) =~= split_on(cs@.take(i + 1), sep));
            }
        }
        i = i + 1;
    }
    let last = string_from_chars(&current);
    done.push(last);
    proof {
        assert(cs@.take(cs@.len() as int) =~= cs@);
        assert(views(done@) =~= split_on(s@, sep));
    }
    done
}


/// Appending text without the separator extends the last piece.
proof fn lemma_split_append(x: Seq<char>, y: Seq<char>, sep: char)
    requires
        !y.contains(sep),
    ensures
        split_on(x + y, sep) == split_on(x, sep).update(
            split_on(x, sep).len() - 1,
            split_on(x, sep).last() + y,
        ),
    decreases y.len(),
{
    lemma_split_nonempty(x, sep);
    if y.len() == 0 {
        assert(x + y =~= x);
        assert(split_on(x, sep).last() + y =~= split_on(x, sep).last());
        assert(split_on(x, sep).update(split_on(x, sep).len() - 1, split_on(x, sep).last())
            =~= split_on(x, sep));
    } else {
        let y0 = y.drop_last();
        assert(!y0.contains(sep)) by {
            if y0.contains(sep) {
                let k = choose|k: int| 0 <= k < y0.len() && y0[k] == sep;
                assert(y[k] == sep);
            }
        }
        lemma_split_append(x, y0, sep);
        assert((x + y).drop_last() =~= x + y0);
        assert((x + y).last() == y.last());
        assert(y.last() != sep) by {
            assert(y[y.len() - 1] == y.last());
        }
        lemma_split_nonempty(x + y0, sep);
        assert(split_on(x + y, sep) =~= split_on(x, sep).update(
            split_on(x, sep).len() - 1,
            split_on(x, sep).last() + y,
        )) by {
            assert((split_on(x, sep).last() + y0).push(y.last()) =~= split_on(x, sep).last() + y);
        }
    }
}

/// Splitting parts joined by a separator that none of them holds gives the
/// parts back.
pub proof fn lemma_split_join(parts: Seq<Seq<char>>, sep: char)
    requires
        parts.len() >= 1,
        forall|i: int| 0 <= i < parts.len() ==> !(#[trigger] parts[i]).contains(sep),
    ensures
        split_on(join(parts, seq![sep]), sep) == parts,
    decreases parts.len(),
{
    if parts.len() == 1 {
        assert(Seq::<char>::empty() + parts[0] =~= parts[0]);
        lemma_split_append(Seq::empty(), parts[0], sep);
        assert(split_on(Seq::<char>::empty(), sep) =~= seq![Seq::<char>::empty()]);
        assert(split_on(parts[0], sep) =~= parts);
    } else {
        let init = parts.drop_last();
        assert forall|i: int| 0 <= i < init.len() implies !(#[trigger] init[i]).contains(sep) by {
            assert(init[i] == parts[i]);
        }
        lemma_split_join(init, sep);
        let a = join(init, seq![sep]);
        let last = parts.last();
        assert(!last.contains(sep)) by {
            assert(parts[parts.len() - 1] == last);
        }
        assert(join(parts, seq![sep]) == a + seq![sep] + last);
        assert((a + seq![sep]).drop_last() =~= a);
        lemma_split_append(a + seq![sep], last, sep);
        lemma_split_nonempty(a, sep);
        assert(split_on(a + seq![sep], sep) == split_on(a, sep).push(Seq::empty()));
        assert(Seq::<char>::empty() + last =~= last);
        assert(split_on(join(parts, seq![sep]), sep) =~= parts);
    }
}


/// Trimming the start leaves nothing or a text that starts with a non-space.
proof fn lemma_trim_start_shape(s: Seq<char>)
    ensures
        trim_start(s).len() == 0 || !white_space(trim_start(s)[0]),
    decreases s.len(),
{
    if s.len() > 0 && white_space(s[0]) {
        lemma_trim_start_shape(s.drop_first());
    }
}

/// Trimming the end keeps a prefix, and leaves nothing or a text that ends
/// with a non-space.
proof fn lemma_trim_end_shape(s: Seq<char>)
    ensures
        trim_end(s).len() <= s.len(),
        trim_end(s) == s.take(trim_end(s).len() as int),
        trim_end(s).len() == 0 || !white_space(trim_end(s).last()),
    decreases s.len(),
{
    if s.len() > 0 && white_space(s.last()) {
        lemma_trim_end_shape(s.drop_last());
        assert(s.drop_last().take(trim_end(s).len() as int) =~= s.take(trim_end(s).len() as int));
    } else {
        assert(s.take(s.len() as int) =~= s);
    }
}

/// Trimming a trimmed text changes nothing.
pub proof fn lemma_trim_idempotent(s: Seq<char>)
    ensures
        trim(trim(s)) == trim(s),
{
    let a = trim_start(s);
    let t = trim_end(a);
    lemma_trim_start_shape(s);
    lemma_trim_end_shape(a);
    if t.len() > 0 {
        assert(t[0] == a[0]);
    }
    assert(trim_start(t) == t);
    lemma_trim_end_shape(t);
    assert(trim_end(t) == t) by {
        if t.len() > 0 {
            assert(!white_space(t.last()));
        }
    }
}

} // verus!
