//! Character-level text handling: Unicode white space, line splitting in the
//! manner of `str::lines`, joining with line feeds, and decimal numerals.
use vstd::prelude::*;

verus! {

// ---------------------------------------------------------------------------
// White space
// ---------------------------------------------------------------------------

/// The Unicode `White_Space` property, which `char::is_whitespace` and
/// `str::trim_start` go by.
pub open spec fn is_white_space(c: char) -> bool {
    let u = c as u32;
    ||| 0x09 <= u <= 0x0D
    ||| u == 0x20
    ||| u == 0x85
    ||| u == 0xA0
    ||| u == 0x1680
    ||| 0x2000 <= u <= 0x200A
    ||| u == 0x2028
    ||| u == 0x2029
    ||| u == 0x202F
    ||| u == 0x205F
    ||| u == 0x3000
}

/// The code points that Unicode's PropList.txt gives the `White_Space`
/// property, one by one.
pub open spec fn white_space_code_points() -> Set<u32> {
    set![
        0x09u32, 0x0Au32, 0x0Bu32, 0x0Cu32, 0x0Du32, 0x20u32, 0x85u32, 0xA0u32, 0x1680u32,
        0x2000u32, 0x2001u32, 0x2002u32, 0x2003u32, 0x2004u32, 0x2005u32, 0x2006u32, 0x2007u32,
        0x2008u32, 0x2009u32, 0x200Au32, 0x2028u32, 0x2029u32, 0x202Fu32, 0x205Fu32, 0x3000u32,
    ]
}

/// White space is exactly the characters listed as `White_Space` by Unicode:
/// tab to carriage return, space, next line, no-break space, ogham space
/// mark, the spaces from en quad to hair space, line and paragraph
/// separators, narrow no-break space, medium mathematical space and the
/// ideographic space.
pub proof fn white_space_is_unicode_white_space(c: char)
    ensures
        is_white_space(c) <==> white_space_code_points().contains(c as u32),
{
    let u = c as u32;
    if 0x2000 <= u <= 0x200A {
        assert(u == 0x2000 || u == 0x2001 || u == 0x2002 || u == 0x2003 || u == 0x2004 || u
            == 0x2005 || u == 0x2006 || u == 0x2007 || u == 0x2008 || u == 0x2009 || u == 0x200A);
    }
    if 0x09 <= u <= 0x0D {
        assert(u == 0x09 || u == 0x0A || u == 0x0B || u == 0x0C || u == 0x0D);
    }
}

/// Whether `c` has the Unicode `White_Space` property.
pub fn is_whitespace(c: char) -> (r: bool)
    ensures
        r == is_white_space(c),
        r == white_space_code_points().contains(c as u32),
{
    proof {
        white_space_is_unicode_white_space(c);
    }
    let u: u32 = c as u32;
    (0x09 <= u && u <= 0x0D) || u == 0x20 || u == 0x85 || u == 0xA0 || u == 0x1680 || (0x2000
        <= u && u <= 0x200A) || u == 0x2028 || u == 0x2029 || u == 0x202F || u == 0x205F || u
        == 0x3000
}

/// Number of white-space characters at the front of `s`.
pub open spec fn leading_ws(s: Seq<char>) -> nat
    decreases s.len(),
{
    if s.len() > 0 && is_white_space(s[0]) {
        1 + leading_ws(s.drop_first())
    } else {
        0
    }
}

/// `s` without its leading white space, as `str::trim_start` gives it.
pub open spec fn trim_start(s: Seq<char>) -> Seq<char> {
    s.skip(leading_ws(s) as int)
}

/// `leading_ws` is the first index that does not hold white space.
pub proof fn lemma_leading_ws(s: Seq<char>, k: int)
    requires
        0 <= k <= s.len(),
        forall|j: int| 0 <= j < k ==> is_white_space(#[trigger] s[j]),
        k == s.len() || !is_white_space(s[k]),
    ensures
        leading_ws(s) == k,
    decreases k,
{
    if k > 0 {
        lemma_leading_ws(s.drop_first(), k - 1);
    }
}

/// Index of the first character of `s[from..to]` that is not white space
/// (`to` when there is none).
pub fn skip_ws(s: &Vec<char>, from: usize, to: usize) -> (k: usize)
    requires
        from <= to <= s.len(),
    ensures
        from <= k <= to,
        k == from + leading_ws(s@.subrange(from as int, to as int)),
{
    let mut k = from;
    while k < to && is_whitespace(s[k])
        invariant
            from <= k <= to <= s.len(),
            forall|j: int| from <= j < k ==> is_white_space(#[trigger] s@[j]),
        decreases to - k,
    {
        k = k + 1;
    }
    proof {
        let t = s@.subrange(from as int, to as int);
        assert forall|j: int| 0 <= j < k - from implies is_white_space(#[trigger] t[j]) by {
            assert(t[j] == s@[from + j]);
        }
        lemma_leading_ws(t, k - from);
    }
    k
}

// ---------------------------------------------------------------------------
// Lines
// ---------------------------------------------------------------------------

/// Number of characters before the first line feed of `s` (all of `s` when it has none).
pub open spec fn line_len(s: Seq<char>) -> nat
    decreases s.len(),
{
    if s.len() == 0 || s[0] == '\n' {
        0
    } else {
        1 + line_len(s.drop_first())
    }
}

/// `l` without one carriage return at its end.
pub open spec fn strip_cr(l: Seq<char>) -> Seq<char> {
    if l.len() > 0 && l.last() == '\r' {
        l.drop_last()
    } else {
        l
    }
}

/// The lines of `s` as `str::lines` yields them: split at each `\n`, a `\r`
/// right before a `\n` dropped with it, and no empty line after a final `\n`.
pub open spec fn lines(s: Seq<char>) -> Seq<Seq<char>>
    decreases s.len(),
{
    if s.len() == 0 {
        seq![]
    } else {
        let n = line_len(s);
        if n >= s.len() {
            seq![s]
        } else {
            seq![strip_cr(s.take(n as int))] + lines(s.skip(n as int + 1))
        }
    }
}

/// `line_len` is the index of the first line feed.
pub proof fn lemma_line_len(s: Seq<char>, k: int)
    requires
        0 <= k <= s.len(),
        forall|j: int| 0 <= j < k ==> #[trigger] s[j] != '\n',
        k == s.len() || s[k] == '\n',
    ensures
        line_len(s) == k,
    decreases k,
{
    if k > 0 {
        lemma_line_len(s.drop_first(), k - 1);
    }
}

/// Characters `from..to` of `v` as a string.
pub fn chars_to_string(v: &Vec<char>, from: usize, to: usize) -> (s: String)
    requires
        from <= to <= v.len(),
    ensures
        s@ == v@.subrange(from as int, to as int),
{
    let mut s = String::new();
    let mut i = from;
    while i < to
        invariant
            from <= i <= to <= v.len(),
            s@ == v@.subrange(from as int, i as int),
        decreases to - i,
    {
        push_char(&mut s, v[i]);
        i = i + 1;
        assert(s@ =~= v@.subrange(from as int, i as int));
    }
    s
}

/// Spans of the lines of `v`, as start and end indices into `v`.
pub fn line_spans(v: &Vec<char>) -> (spans: Vec<(usize, usize)>)
    ensures
        spans@.len() == lines(v@).len(),
        forall|i: int|
            0 <= i < spans@.len() ==> {
                let (a, b) = #[trigger] spans@[i];
                &&& a <= b <= v.len()
                &&& v@.subrange(a as int, b as int) == lines(v@)[i]
            },
{
    let mut spans: Vec<(usize, usize)> = Vec::new();
    let mut start: usize = 0;
    let mut i: usize = 0;
    let ghost s = v@;
    assert(s.skip(0) =~= s);
    assert(spans@.map_values(|p: (usize, usize)| s.subrange(p.0 as int, p.1 as int)) =~= Seq::<
        Seq<char>,
    >::empty());
    while i < v.len()
        invariant
            start <= i <= v.len(),
            s == v@,
            forall|j: int| start <= j < i ==> #[trigger] s[j] != '\n',
            lines(s) == spans@.map_values(|p: (usize, usize)| s.subrange(p.0 as int, p.1 as int))
                + lines(s.skip(start as int)),
            forall|j: int|
                0 <= j < spans@.len() ==> {
                    let (a, b) = #[trigger] spans@[j];
                    a <= b <= v.len()
                },
        decreases v.len() - i,
    {
        if v[i] == '\n' {
            let mut end = i;
            if end > start && v[end - 1] == '\r' {
                end = end - 1;
            }
            proof {
                let rest = s.skip(start as int);
                lemma_line_len(rest, i - start);
                assert(rest.take(i - start) =~= s.subrange(start as int, i as int));
                assert(rest.skip(i - start + 1) =~= s.skip(i + 1));
                assert(strip_cr(s.subrange(start as int, i as int)) =~= s.subrange(
                    start as int,
                    end as int,
                ));
            }
            let ghost old_spans = spans@;
            spans.push((start, end));
            proof {
                assert(spans@.map_values(|p: (usize, usize)| s.subrange(p.0 as int, p.1 as int))
                    =~= old_spans.map_values(
                    |p: (usize, usize)| s.subrange(p.0 as int, p.1 as int),
                ).push(s.subrange(start as int, end as int)));
            }
            start = i + 1;
        }
        i = i + 1;
    }
    proof {
        let rest = s.skip(start as int);
        if start < v.len() {
            lemma_line_len(rest, rest.len() as int);
            assert(rest =~= s.subrange(start as int, v.len() as int));
        }
    }
    if start < v.len() {
        let ghost old_spans = spans@;
        spans.push((start, v.len()));
        proof {
            assert(spans@.map_values(|p: (usize, usize)| s.subrange(p.0 as int, p.1 as int))
                =~= old_spans.map_values(
                |p: (usize, usize)| s.subrange(p.0 as int, p.1 as int),
            ).push(s.subrange(start as int, v.len() as int)));
        }
    }
    proof {
        let m = spans@.map_values(|p: (usize, usize)| s.subrange(p.0 as int, p.1 as int));
        if start >= v.len() {
            assert(lines(s.skip(start as int)) =~= Seq::<Seq<char>>::empty());
        }
        assert(lines(s) =~= m);
        assert forall|j: int| 0 <= j < spans@.len() implies {
            let (a, b) = #[trigger] spans@[j];
            &&& a <= b <= v.len()
            &&& v@.subrange(a as int, b as int) == lines(v@)[j]
        } by {
            assert(m[j] == s.subrange(spans@[j].0 as int, spans@[j].1 as int));
        }
    }
    spans
}

// ---------------------------------------------------------------------------
// Joining
// ---------------------------------------------------------------------------

/// The parts, with a line feed between each two of them.
pub open spec fn join_lines(parts: Seq<Seq<char>>) -> Seq<char>
    decreases parts.len(),
{
    if parts.len() == 0 {
        seq![]
    } else if parts.len() == 1 {
        parts[0]
    } else {
        parts[0] + seq!['\n'] + join_lines(parts.drop_first())
    }
}

/// Adding a part at the end adds a line feed and that part.
pub proof fn lemma_join_push(parts: Seq<Seq<char>>, x: Seq<char>)
    requires
        parts.len() >= 1,
    ensures
        join_lines(parts.push(x)) == join_lines(parts) + seq!['\n'] + x,
    decreases parts.len(),
{
    let px = parts.push(x);
    assert(px[0] == parts[0]);
    if parts.len() == 1 {
        assert(px.drop_first() =~= seq![x]);
        assert(join_lines(seq![x]) == x);
        assert(join_lines(parts) == parts[0]);
        assert(join_lines(px) =~= join_lines(parts) + seq!['\n'] + x);
    } else {
        lemma_join_push(parts.drop_first(), x);
        assert(px.drop_first() =~= parts.drop_first().push(x));
        assert(join_lines(px) =~= join_lines(parts) + seq!['\n'] + x);
    }
}

// ---------------------------------------------------------------------------
// Conversions between strings and characters
// ---------------------------------------------------------------------------

/// `String::push`: appends the character `c` to `s`, as its documentation
/// says; the contract states that the characters of `s` grow by `c`.
#[verifier::external_body]
pub(crate) fn push_char(s: &mut String, c: char)
    ensures
        final(s)@ == old(s)@.push(c),
{
    s.push(c)
}

/// The characters of `s`.
pub fn str_chars(s: &str) -> (v: Vec<char>)
    ensures
        v@ == s@,
{
    broadcast use vstd::string::group_string_axioms;

    let mut v: Vec<char> = Vec::new();
    for c in it: s.chars()
        invariant
            v@ == it.seq().take(it.index()),
    {
        v.push(c);
        assert(v@ =~= it.seq().take(it.index() + 1));
    }
    assert(v@ =~= s@);
    v
}

/// Whether two strings hold the same characters.
pub fn same_text(a: &str, b: &str) -> (r: bool)
    ensures
        r == (a@ == b@),
{
    let x = str_chars(a);
    let y = str_chars(b);
    if x.len() != y.len() {
        return false;
    }
    let mut i: usize = 0;
    while i < x.len()
        invariant
            x@ == a@,
            y@ == b@,
            x.len() == y.len(),
            i <= x.len(),
            forall|j: int| 0 <= j < i ==> x@[j] == y@[j],
        decreases x.len() - i,
    {
        if x[i] != y[i] {
            return false;
        }
        i = i + 1;
    }
    assert(x@ =~= y@);
    true
}

/// Whether `needle` occurs in `hay` at position `i`.
pub open spec fn occurs_at(hay: Seq<char>, needle: Seq<char>, i: int) -> bool {
    0 <= i && i + needle.len() <= hay.len() && hay.subrange(i, i + needle.len()) == needle
}

/// Whether `needle` occurs anywhere in `hay`.
pub open spec fn contains_text(hay: Seq<char>, needle: Seq<char>) -> bool {
    exists|i: int| occurs_at(hay, needle, i)
}

/// Whether `needle` occurs in `hay`, as `str::contains` tells.
pub fn text_contains(hay: &str, needle: &str) -> (r: bool)
    ensures
        r == contains_text(hay@, needle@),
{
    let h = str_chars(hay);
    let n = str_chars(needle);
    if n.len() > h.len() {
        proof {
            assert forall|i: int| !occurs_at(hay@, needle@, i) by {}
        }
        return false;
    }
    let mut i: usize = 0;
    while i <= h.len() - n.len()
        invariant
            h@ == hay@,
            n@ == needle@,
            n.len() <= h.len(),
            i <= h.len() - n.len() + 1,
            forall|k: int| 0 <= k < i ==> !occurs_at(hay@, needle@, k),
        decreases h.len() - n.len() + 1 - i,
    {
        let mut j: usize = 0;
        while j < n.len() && h[i + j] == n[j]
            invariant
                h@ == hay@,
                n@ == needle@,
                i + n.len() <= h.len(),
                j <= n.len(),
                forall|k: int| 0 <= k < j ==> h@[i + k] == n@[k],
            decreases n.len() - j,
        {
            j = j + 1;
        }
        if j == n.len() {
            assert(hay@.subrange(i as int, i + needle@.len()) =~= needle@);
            assert(occurs_at(hay@, needle@, i as int));
            return true;
        }
        assert(hay@.subrange(i as int, i + needle@.len())[j as int] != needle@[j as int]);
        i = i + 1;
    }
    assert forall|k: int| !occurs_at(hay@, needle@, k) by {
        if 0 <= k && k + needle@.len() <= hay@.len() {
            assert(k < i);
        }
    }
    false
}

// ---------------------------------------------------------------------------
// Decimal numerals
// ---------------------------------------------------------------------------

/// The decimal digit for `d < 10`.
pub open spec fn digit(d: nat) -> char {
    if d == 0 {
        '0'
    } else if d == 1 {
        '1'
    } else if d == 2 {
        '2'
    } else if d == 3 {
        '3'
    } else if d == 4 {
        '4'
    } else if d == 5 {
        '5'
    } else if d == 6 {
        '6'
    } else if d == 7 {
        '7'
    } else if d == 8 {
        '8'
    } else {
        '9'
    }
}

/// The decimal numeral of `n`, as `format!("{n}")` writes it.
pub open spec fn decimal(n: nat) -> Seq<char>
    decreases n,
{
    if n < 10 {
        seq![digit(n)]
    } else {
        decimal(n / 10).push(digit(n % 10))
    }
}

fn digit_char(d: u128) -> (c: char)
    requires
        d < 10,
    ensures
        c == digit(d as nat),
{
    if d == 0 {
        '0'
    } else if d == 1 {
        '1'
    } else if d == 2 {
        '2'
    } else if d == 3 {
        '3'
    } else if d == 4 {
        '4'
    } else if d == 5 {
        '5'
    } else if d == 6 {
        '6'
    } else if d == 7 {
        '7'
    } else if d == 8 {
        '8'
    } else {
        '9'
    }
}

/// Appends the decimal numeral of `n` to `s`.
pub fn push_decimal(s: &mut String, n: u128)
    ensures
        final(s)@ == old(s)@ + decimal(n as nat),
{
    let mut digits: Vec<char> = Vec::new();
    let mut m: u128 = n;
    while m >= 10
        invariant
            decimal(n as nat) == decimal(m as nat) + digits@,
        decreases m,
    {
        let ghost old_digits = digits@;
        digits.insert(0, digit_char(m % 10));
        proof {
            assert(decimal(m as nat) == decimal((m / 10) as nat).push(digit((m % 10) as nat)));
            assert(decimal((m / 10) as nat).push(digit((m % 10) as nat)) + old_digits
                =~= decimal((m / 10) as nat) + digits@);
        }
        m = m / 10;
    }
    digits.insert(0, digit_char(m));
    assert(decimal(n as nat) =~= digits@);
    let mut i: usize = 0;
    let ghost start = s@;
    while i < digits.len()
        invariant
            i <= digits.len(),
            s@ == start + digits@.take(i as int),
        decreases digits.len() - i,
    {
        push_char(s, digits[i]);
        i = i + 1;
        assert(s@ =~= start + digits@.take(i as int));
    }
    assert(digits@.take(i as int) =~= digits@);
}

} // verus!
