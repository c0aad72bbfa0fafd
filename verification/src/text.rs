//! Character-level text handling shared by the manifest, plan and pacman
//! configuration code: white space, trimming, line splitting, `key = value`
//! splitting, ASCII lower-casing and decimal rendering.
use vstd::prelude::*;

verus! {

/// The Unicode `White_Space` property, which `char::is_whitespace` and
/// `str::trim` go by.
pub open spec fn is_white_space(c: char) -> bool {
    let n = c as u32;
    ||| 0x9 <= n <= 0xd
    ||| n == 0x20
    ||| n == 0x85
    ||| n == 0xa0
    ||| n == 0x1680
    ||| 0x2000 <= n <= 0x200a
    ||| n == 0x2028
    ||| n == 0x2029
    ||| n == 0x202f
    ||| n == 0x205f
    ||| n == 0x3000
}

/// `s` without its leading white space.
pub open spec fn trim_start(s: Seq<char>) -> Seq<char>
    decreases s.len(),
{
    if s.len() > 0 && is_white_space(s[0]) {
        trim_start(s.drop_first())
    } else {
        s
    }
}

/// `s` without its trailing white space.
pub open spec fn trim_end(s: Seq<char>) -> Seq<char>
    decreases s.len(),
{
    if s.len() > 0 && is_white_space(s.last()) {
        trim_end(s.drop_last())
    } else {
        s
    }
}

/// `s` without leading and trailing white space (what `str::trim` returns).
pub open spec fn trim(s: Seq<char>) -> Seq<char> {
    trim_end(trim_start(s))
}

/// A text is blank when nothing is left of it once trimmed.
pub open spec fn is_blank(s: Seq<char>) -> bool {
    trim(s).len() == 0
}

/// The position of the first `c` in `s`, or `s.len()` where there is none.
pub open spec fn first_index_of(s: Seq<char>, c: char) -> int
    decreases s.len(),
{
    if s.len() == 0 {
        0
    } else if s[0] == c {
        0
    } else {
        1 + first_index_of(s.drop_first(), c)
    }
}

/// The pieces of `s` between the `'\n'` characters; there is always at
/// least one piece.
pub open spec fn newline_pieces(s: Seq<char>) -> Seq<Seq<char>>
    decreases s.len(),
{
    if s.len() == 0 {
        seq![Seq::<char>::empty()]
    } else {
        let p = newline_pieces(s.drop_last());
        if s.last() == '\n' {
            p.push(Seq::<char>::empty())
        } else {
            p.update(p.len() - 1, p.last().push(s.last()))
        }
    }
}

/// The lines of `s`, cut at each `'\n'`; a final line ending is optional
/// and an empty text has no lines.  (`str::lines` also drops a `'\r'`
/// before the `'\n'`; every line is trimmed before it is read here, which
/// removes it anyway.)
pub open spec fn split_lines(s: Seq<char>) -> Seq<Seq<char>> {
    if s.len() == 0 {
        Seq::<Seq<char>>::empty()
    } else if s.last() == '\n' {
        newline_pieces(s).drop_last()
    } else {
        newline_pieces(s)
    }
}

/// A `key = value` line split at its first `'='`, both sides trimmed.
pub open spec fn split_key_value_spec(line: Seq<char>) -> Option<(Seq<char>, Seq<char>)> {
    let i = first_index_of(line, '=');
    if i < line.len() {
        Some((trim(line.take(i)), trim(line.skip(i + 1))))
    } else {
        None
    }
}

/// `c` with an ASCII upper-case letter turned lower-case.
pub open spec fn ascii_lower_char(c: char) -> char {
    if 'A' <= c <= 'Z' {
        ((c as u32) + 32) as char
    } else {
        c
    }
}

/// What `str::to_ascii_lowercase` returns.
pub open spec fn ascii_lower(s: Seq<char>) -> Seq<char> {
    s.map_values(|c: char| ascii_lower_char(c))
}

/// The decimal digit for `d < 10`.
pub open spec fn digit_char(d: nat) -> char {
    ((d + 48) as u32) as char
}

/// The decimal rendering of `n`, without leading zeros.
pub open spec fn decimal(n: nat) -> Seq<char>
    decreases n,
{
    if n < 10 {
        seq![digit_char(n)]
    } else {
        decimal(n / 10).push(digit_char(n % 10))
    }
}

/// A text that ends where a line ends: empty, or with a `'\n'`.
pub open spec fn ends_a_line(x: Seq<char>) -> bool {
    x.len() == 0 || x.last() == '\n'
}

/// A text of one line: it holds no `'\n'`.
pub open spec fn is_one_line(l: Seq<char>) -> bool {
    forall|i: int| 0 <= i < l.len() ==> l[i] != '\n'
}

proof fn lemma_pieces_nonempty(s: Seq<char>)
    ensures
        newline_pieces(s).len() >= 1,
    decreases s.len(),
{
    if s.len() > 0 {
        lemma_pieces_nonempty(s.drop_last());
    }
}

proof fn lemma_pieces_append(x: Seq<char>, y: Seq<char>)
    requires
        ends_a_line(x),
    ensures
        newline_pieces(x + y) == newline_pieces(x).drop_last() + newline_pieces(y),
    decreases y.len(),
{
    let a = newline_pieces(x).drop_last();
    lemma_pieces_nonempty(x);
    if y.len() == 0 {
        assert(x + y =~= x);
        if x.len() > 0 {
            lemma_pieces_nonempty(x.drop_last());
        }
        assert(newline_pieces(x).last() =~= Seq::<char>::empty());
        assert(newline_pieces(x) =~= a + newline_pieces(y));
    } else {
        let y1 = y.drop_last();
        let c = y.last();
        lemma_pieces_append(x, y1);
        lemma_pieces_nonempty(y1);
        assert((x + y).drop_last() =~= x + y1);
        assert((x + y).last() == c);
        let p = newline_pieces(y1);
        if c == '\n' {
            assert((a + p).push(Seq::<char>::empty()) =~= a + p.push(Seq::<char>::empty()));
        } else {
            assert((a + p).last() == p.last());
            assert((a + p).update((a + p).len() - 1, p.last().push(c)) =~= a + p.update(
                p.len() - 1,
                p.last().push(c),
            ));
        }
    }
}

/// The lines of two texts put together, the first ending where a line
/// ends, are the lines of the first and then those of the second.
pub proof fn lemma_split_lines_append(x: Seq<char>, y: Seq<char>)
    requires
        ends_a_line(x),
    ensures
        split_lines(x + y) == split_lines(x) + split_lines(y),
{
    if y.len() == 0 {
        assert(x + y =~= x);
        assert(split_lines(x) + split_lines(y) =~= split_lines(x));
    } else {
        lemma_pieces_append(x, y);
        lemma_pieces_nonempty(y);
        assert((x + y).last() == y.last());
        let a = newline_pieces(x).drop_last();
        if x.len() == 0 {
            assert(a =~= Seq::<Seq<char>>::empty());
            assert(split_lines(x) =~= a);
        }
        if y.last() == '\n' {
            assert((a + newline_pieces(y)).drop_last() =~= a + newline_pieces(y).drop_last());
        }
    }
}

proof fn lemma_pieces_one_line(l: Seq<char>)
    requires
        is_one_line(l),
    ensures
        newline_pieces(l) == seq![l],
    decreases l.len(),
{
    if l.len() == 0 {
        assert(l =~= Seq::<char>::empty());
        assert(newline_pieces(l) =~= seq![l]);
    } else {
        let l1 = l.drop_last();
        assert(l[l.len() - 1] != '\n');
        assert forall|i: int| 0 <= i < l1.len() implies l1[i] != '\n' by {
            assert(l1[i] == l[i]);
        }
        lemma_pieces_one_line(l1);
        assert(l1.push(l.last()) =~= l);
        let p = newline_pieces(l1);
        assert(p.last() == l1);
        assert(newline_pieces(l) == p.update(0, l1.push(l.last())));
        assert(newline_pieces(l) =~= seq![l]);
    }
}

/// One line followed by `'\n'` splits into just that line.
pub proof fn lemma_split_one_line(l: Seq<char>)
    requires
        is_one_line(l),
    ensures
        split_lines(l.push('\n')) == seq![l],
{
    lemma_pieces_one_line(l);
    assert(l.push('\n').drop_last() =~= l);
    assert(newline_pieces(l.push('\n')) =~= seq![l, Seq::<char>::empty()]);
    assert(seq![l, Seq::<char>::empty()].drop_last() =~= seq![l]);
}

proof fn lemma_trim_start_skip(s: Seq<char>, i: int)
    requires
        0 <= i < s.len(),
        is_white_space(s[i]),
    ensures
        trim_start(s.skip(i)) == trim_start(s.skip(i + 1)),
{
    assert(s.skip(i).drop_first() =~= s.skip(i + 1));
}

proof fn lemma_trim_end_take(s: Seq<char>, j: int)
    requires
        0 < j <= s.len(),
        is_white_space(s[j - 1]),
    ensures
        trim_end(s.take(j)) == trim_end(s.take(j - 1)),
{
    assert(s.take(j).drop_last() =~= s.take(j - 1));
}

proof fn lemma_first_index_of(s: Seq<char>, c: char, i: int)
    requires
        0 <= i <= s.len(),
        forall|j: int| 0 <= j < i ==> s[j] != c,
        i == s.len() || s[i] == c,
    ensures
        first_index_of(s, c) == i,
    decreases i,
{
    if i > 0 {
        let t = s.drop_first();
        assert forall|j: int| 0 <= j < i - 1 implies t[j] != c by {
            assert(t[j] == s[j + 1]);
        }
        if i < s.len() {
            assert(t[i - 1] == s[i]);
        }
        lemma_first_index_of(t, c, i - 1);
    }
}

/// Whether `c` has the Unicode `White_Space` property.
pub fn is_white_space_char(c: char) -> (r: bool)
    ensures
        r == is_white_space(c),
{
    let n = c as u32;
    (0x9 <= n && n <= 0xd) || n == 0x20 || n == 0x85 || n == 0xa0 || n == 0x1680 || (0x2000
        <= n && n <= 0x200a) || n == 0x2028 || n == 0x2029 || n == 0x202f || n == 0x205f || n
        == 0x3000
}

/// The characters of `s`, in order.
pub fn chars_of(s: &str) -> (v: Vec<char>)
    ensures
        v@ == s@,
{
    let mut v: Vec<char> = Vec::new();
    for c in it: s.chars()
        invariant
            v@ == it.seq().take(it.index() as int),
            it.seq() == s@,
    {
        v.push(c);
    }
    v
}

/// `String::push`: appends one character.
#[verifier::external_body]
pub(crate) fn push_char(s: &mut String, c: char)
    ensures
        final(s)@ == old(s)@.push(c),
{
    s.push(c);
}

/// The text of `s[lo..hi]` as a new `String`.
pub fn owned_range(s: &str, lo: usize, hi: usize) -> (r: String)
    requires
        lo <= hi <= s@.len(),
    ensures
        r@ == s@.subrange(lo as int, hi as int),
{
    s.substring_char(lo, hi).to_owned()
}

/// The bounds `(a, b)` of `v[lo..hi]` once trimmed: `v[a..b]` is
/// `trim(v[lo..hi])`.
pub fn trim_range(v: &Vec<char>, lo: usize, hi: usize) -> (r: (usize, usize))
    requires
        lo <= hi <= v@.len(),
    ensures
        lo <= r.0 <= r.1 <= hi,
        v@.subrange(r.0 as int, r.1 as int) == trim(v@.subrange(lo as int, hi as int)),
{
    let ghost s = v@.subrange(lo as int, hi as int);
    let mut a = lo;
    while a < hi && is_white_space_char(v[a])
        invariant
            lo <= a <= hi <= v@.len(),
            s == v@.subrange(lo as int, hi as int),
            trim_start(s) == trim_start(v@.subrange(a as int, hi as int)),
        decreases hi - a,
    {
        proof {
            let t = v@.subrange(a as int, hi as int);
            assert(t.drop_first() =~= v@.subrange(a + 1, hi as int));
        }
        a = a + 1;
    }
    let ghost u = v@.subrange(a as int, hi as int);
    assert(trim_start(u) == u);
    let mut b = hi;
    while b > a && is_white_space_char(v[b - 1])
        invariant
            lo <= a <= b <= hi <= v@.len(),
            u == v@.subrange(a as int, hi as int),
            trim_end(u) == trim_end(v@.subrange(a as int, b as int)),
        decreases b - a,
    {
        proof {
            let t = v@.subrange(a as int, b as int);
            assert(t.drop_last() =~= v@.subrange(a as int, b - 1));
        }
        b = b - 1;
    }
    let ghost w = v@.subrange(a as int, b as int);
    assert(trim_end(w) == w);
    (a, b)
}

/// Whether `s` is blank: empty once trimmed.
pub fn is_blank_str(s: &str) -> (r: bool)
    ensures
        r == is_blank(s@),
{
    let v = chars_of(s);
    let (a, b) = trim_range(&v, 0, v.len());
    assert(v@.subrange(0, v@.len() as int) =~= s@);
    a == b
}

/// Whether `v[lo..hi]` holds exactly the characters of `t`.
pub fn range_equals(v: &Vec<char>, lo: usize, hi: usize, t: &Vec<char>) -> (r: bool)
    requires
        lo <= hi <= v@.len(),
    ensures
        r == (v@.subrange(lo as int, hi as int) == t@),
{
    if hi - lo != t.len() {
        return false;
    }
    let mut i: usize = 0;
    while i < t.len()
        invariant
            lo <= hi <= v@.len(),
            hi - lo == t@.len(),
            0 <= i <= t@.len(),
            forall|j: int| 0 <= j < i ==> v@[lo + j] == t@[j],
        decreases t@.len() - i,
    {
        if v[lo + i] != t[i] {
            assert(v@.subrange(lo as int, hi as int)[i as int] != t@[i as int]);
            return false;
        }
        i = i + 1;
    }
    assert(v@.subrange(lo as int, hi as int) =~= t@);
    true
}

/// The position of the first `c` in `v[lo..hi]`, counted from `lo`, or
/// `hi - lo` where there is none.
pub fn find_char(v: &Vec<char>, lo: usize, hi: usize, c: char) -> (r: usize)
    requires
        lo <= hi <= v@.len(),
    ensures
        r == first_index_of(v@.subrange(lo as int, hi as int), c),
        r <= hi - lo,
{
    let ghost s = v@.subrange(lo as int, hi as int);
    let mut i: usize = 0;
    while lo + i < hi && v[lo + i] != c
        invariant
            lo <= hi <= v@.len(),
            s == v@.subrange(lo as int, hi as int),
            0 <= i <= hi - lo,
            forall|j: int| 0 <= j < i ==> s[j] != c,
        decreases hi - lo - i,
    {
        i = i + 1;
    }
    proof {
        lemma_first_index_of(s, c, i as int);
    }
    i
}

/// Splits the line `v[lo..hi]` at its first `'='`, and returns the bounds
/// of the trimmed key and the trimmed value.
pub fn split_key_value(v: &Vec<char>, lo: usize, hi: usize) -> (r: Option<((usize, usize), (usize, usize))>)
    requires
        lo <= hi <= v@.len(),
    ensures
        match (r, split_key_value_spec(v@.subrange(lo as int, hi as int))) {
            (None, None) => true,
            (Some((k, x)), Some((ks, xs))) => {
                &&& lo <= k.0 <= k.1 <= hi
                &&& lo <= x.0 <= x.1 <= hi
                &&& v@.subrange(k.0 as int, k.1 as int) == ks
                &&& v@.subrange(x.0 as int, x.1 as int) == xs
            },
            _ => false,
        },
{
    let ghost s = v@.subrange(lo as int, hi as int);
    let i = find_char(v, lo, hi, '=');
    if i == hi - lo {
        return None;
    }
    let k = trim_range(v, lo, lo + i);
    let x = trim_range(v, lo + i + 1, hi);
    assert(s.take(i as int) =~= v@.subrange(lo as int, lo + i));
    assert(s.skip(i + 1) =~= v@.subrange(lo + i + 1, hi as int));
    Some((k, x))
}

/// The bounds of the lines of `v`, as `split_lines` cuts them.
pub fn line_ranges(v: &Vec<char>) -> (r: Vec<(usize, usize)>)
    ensures
        forall|k: int| 0 <= k < r@.len() ==> (#[trigger] r@[k]).0 <= r@[k].1 <= v@.len(),
        r@.len() == split_lines(v@).len(),
        forall|k: int|
            0 <= k < r@.len() ==> v@.subrange(r@[k].0 as int, r@[k].1 as int)
                == #[trigger] split_lines(v@)[k],
{
    let mut r: Vec<(usize, usize)> = Vec::new();
    let mut start: usize = 0;
    let mut i: usize = 0;
    while i < v.len()
        invariant
            0 <= start <= i <= v@.len(),
            forall|k: int| 0 <= k < r@.len() ==> (#[trigger] r@[k]).0 <= r@[k].1 <= start,
            newline_pieces(v@.take(i as int)).len() == r@.len() + 1,
            forall|k: int|
                0 <= k < r@.len() ==> v@.subrange(r@[k].0 as int, r@[k].1 as int)
                    == #[trigger] newline_pieces(v@.take(i as int))[k],
            newline_pieces(v@.take(i as int)).last() == v@.subrange(start as int, i as int),
        decreases v@.len() - i,
    {
        let ghost old_r = r@;
        let ghost p = newline_pieces(v@.take(i as int));
        assert(v@.take(i + 1).drop_last() =~= v@.take(i as int));
        assert(v@.take(i + 1).last() == v@[i as int]);
        if v[i] == '\n' {
            r.push((start, i));
            start = i + 1;
            assert(v@.subrange(start as int, (i + 1) as int) =~= Seq::<char>::empty());
            assert forall|k: int| 0 <= k < r@.len() implies v@.subrange(
                r@[k].0 as int,
                r@[k].1 as int,
            ) == #[trigger] newline_pieces(v@.take(i + 1))[k] by {
                if k < old_r.len() {
                    assert(r@[k] == old_r[k]);
                }
            }
        } else {
            assert(v@.subrange(start as int, (i + 1) as int) =~= v@.subrange(
                start as int,
                i as int,
            ).push(v@[i as int]));
            assert forall|k: int| 0 <= k < r@.len() implies v@.subrange(
                r@[k].0 as int,
                r@[k].1 as int,
            ) == #[trigger] newline_pieces(v@.take(i + 1))[k] by {
                assert(newline_pieces(v@.take(i + 1))[k] == p[k]);
            }
        }
        i = i + 1;
    }
    assert(v@.take(v@.len() as int) =~= v@);
    if v.len() > 0 && v[v.len() - 1] != '\n' {
        let ghost old_r = r@;
        r.push((start, v.len()));
        assert forall|k: int| 0 <= k < r@.len() implies v@.subrange(
            r@[k].0 as int,
            r@[k].1 as int,
        ) == #[trigger] split_lines(v@)[k] by {
            if k < old_r.len() {
                assert(r@[k] == old_r[k]);
            }
        }
    } else if v.len() > 0 {
        assert(split_lines(v@) == newline_pieces(v@).drop_last());
    }
    r
}

/// The ASCII lower-case form of `s`, as characters.
pub fn ascii_lower_chars(s: &str) -> (r: Vec<char>)
    ensures
        r@ == ascii_lower(s@),
{
    let v = chars_of(s);
    let mut r: Vec<char> = Vec::new();
    let mut i: usize = 0;
    while i < v.len()
        invariant
            v@ == s@,
            0 <= i <= v@.len(),
            r@ == ascii_lower(v@.take(i as int)),
        decreases v@.len() - i,
    {
        let c = v[i];
        let l = if 'A' <= c && c <= 'Z' {
            ((c as u8) + 32) as char
        } else {
            c
        };
        r.push(l);
        assert(ascii_lower(v@.take(i + 1)) =~= ascii_lower(v@.take(i as int)).push(
            ascii_lower_char(v@[i as int]),
        ));
        i = i + 1;
    }
    assert(v@.take(v@.len() as int) =~= v@);
    r
}

/// The decimal digit character for `d < 10`.
fn digit(d: usize) -> (c: char)
    requires
        d < 10,
    ensures
        c == digit_char(d as nat),
{
    ((d as u8) + 48) as char
}

/// The decimal rendering of `n`.
pub fn decimal_string(n: usize) -> (r: String)
    ensures
        r@ == decimal(n as nat),
    decreases n,
{
    if n < 10 {
        let mut r = String::new();
        push_char(&mut r, digit(n));
        r
    } else {
        let mut r = decimal_string(n / 10);
        push_char(&mut r, digit(n % 10));
        r
    }
}

} // verus!
