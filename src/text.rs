//! Character-sequence helpers shared by the request parser and the
//! response serialiser.
use vstd::prelude::*;
use vstd::string::*;

verus! {

/// Index of the first occurrence of `c` in `s`, or -1 when there is none.
pub open spec fn first_index(s: Seq<char>, c: char) -> int
    decreases s.len(),
{
    if s.len() == 0 {
        -1
    } else if s[0] == c {
        0
    } else {
        let r = first_index(s.drop_first(), c);
        if r < 0 {
            -1
        } else {
            r + 1
        }
    }
}

/// `first_index` is the least position holding `c`, or -1 when none does.
pub proof fn lemma_first_index(s: Seq<char>, c: char)
    ensures
        -1 <= first_index(s, c) < s.len(),
        first_index(s, c) == -1 ==> forall|m: int| 0 <= m < s.len() ==> s[m] != c,
        first_index(s, c) >= 0 ==> s[first_index(s, c)] == c && forall|m: int|
            0 <= m < first_index(s, c) ==> s[m] != c,
    decreases s.len(),
{
    if s.len() > 0 && s[0] != c {
        lemma_first_index(s.drop_first(), c);
        assert forall|m: int| 1 <= m < s.len() implies s[m] == s.drop_first()[m - 1] by {}
    }
}

/// A position holding `c` with no earlier one is `first_index`.
pub proof fn lemma_first_index_at(s: Seq<char>, c: char, i: int)
    requires
        -1 <= i < s.len(),
        i >= 0 ==> s[i] == c,
        forall|m: int| 0 <= m < s.len() && (i < 0 || m < i) ==> s[m] != c,
    ensures
        first_index(s, c) == i,
{
    lemma_first_index(s, c);
}

/// The value of a decimal digit.
pub open spec fn digit_value(c: char) -> nat {
    if c == '1' {
        1
    } else if c == '2' {
        2
    } else if c == '3' {
        3
    } else if c == '4' {
        4
    } else if c == '5' {
        5
    } else if c == '6' {
        6
    } else if c == '7' {
        7
    } else if c == '8' {
        8
    } else if c == '9' {
        9
    } else {
        0
    }
}

/// The number that a run of decimal digits denotes.
pub open spec fn digits_value(s: Seq<char>) -> nat
    decreases s.len(),
{
    if s.len() == 0 {
        0
    } else {
        digits_value(s.drop_last()) * 10 + digit_value(s.last())
    }
}

/// `decimal(n)` is a run of digits that denotes `n`.
pub proof fn lemma_decimal_value(n: nat)
    ensures
        digits_value(decimal(n)) == n,
        decimal(n).len() > 0,
        forall|i: int| 0 <= i < decimal(n).len() ==> '0' <= #[trigger] decimal(n)[i] <= '9',
    decreases n,
{
    if n >= 10 {
        lemma_decimal_value(n / 10);
        let d = decimal(n / 10);
        assert(decimal(n).drop_last() == d);
        assert(digit_value(digit_char(n % 10)) == n % 10);
        assert(n == (n / 10) * 10 + n % 10);
        assert(digits_value(decimal(n)) == digits_value(d) * 10 + digit_value(digit_char(n % 10)));
    } else {
        assert(decimal(n).drop_last() =~= Seq::<char>::empty());
        assert(digit_value(digit_char(n)) == n);
        assert(digits_value(decimal(n)) == digits_value(Seq::<char>::empty()) * 10 + digit_value(
            digit_char(n),
        ));
    }
}

/// Whether `p` occurs in `s` as a contiguous run.
pub open spec fn contains(s: Seq<char>, p: Seq<char>) -> bool {
    exists|i: int| 0 <= i && i + p.len() <= s.len() && #[trigger] s.subrange(i, i + p.len()) == p
}

/// The characters that separate the words of a request line: those with
/// the Unicode White_Space property.
pub open spec fn is_space(c: char) -> bool {
    ('\t' <= c && c <= '\r') || c == ' ' || c == '\u{85}' || c == '\u{a0}' || c == '\u{1680}' || (
    '\u{2000}' <= c && c <= '\u{200a}') || c == '\u{2028}' || c == '\u{2029}' || c == '\u{202f}'
        || c == '\u{205f}' || c == '\u{3000}'
}

/// The decimal digit for `d < 10`.
pub open spec fn digit_char(d: nat) -> char {
    if d == 0 {
        '0'
    } else if d == 1 {
        '1'
    } else if d == 2 {
        '2'
    } else if d == 3 {
        '3'
    } else if d == 4 {
        '4'
    } else if d == 5 {
        '5'
    } else if d == 6 {
        '6'
    } else if d == 7 {
        '7'
    } else if d == 8 {
        '8'
    } else {
        '9'
    }
}

/// The decimal notation of `n`, without sign or leading zeros.
pub open spec fn decimal(n: nat) -> Seq<char>
    decreases n,
{
    if n < 10 {
        seq![digit_char(n)]
    } else {
        decimal(n / 10).push(digit_char(n % 10))
    }
}

pub fn is_space_char(c: char) -> (r: bool)
    ensures
        r == is_space(c),
{
    ('\t' <= c && c <= '\r') || c == ' ' || c == '\u{85}' || c == '\u{a0}' || c == '\u{1680}' || (
    '\u{2000}' <= c && c <= '\u{200a}') || c == '\u{2028}' || c == '\u{2029}' || c == '\u{202f}'
        || c == '\u{205f}' || c == '\u{3000}'
}

/// The characters of `s`, one per element.
pub fn chars_of(s: &str) -> (r: Vec<char>)
    ensures
        r@ == s@,
{
    let n = s.unicode_len();
    let mut r: Vec<char> = Vec::new();
    let mut i: usize = 0;
    while i < n
        invariant
            n == s@.len(),
            i <= n,
            r@ == s@.subrange(0, i as int),
        decreases n - i,
    {
        r.push(s.get_char(i));
        i = i + 1;
    }
    assert(r@ == s@);
    r
}

/// Whether `a` and `b` hold the same characters.
pub fn same_text(a: &str, b: &str) -> (r: bool)
    ensures
        r == (a@ == b@),
{
    let n = a.unicode_len();
    if n != b.unicode_len() {
        return false;
    }
    let mut i: usize = 0;
    while i < n
        invariant
            n == a@.len(),
            n == b@.len(),
            i <= n,
            a@.subrange(0, i as int) == b@.subrange(0, i as int),
        decreases n - i,
    {
        if a.get_char(i) != b.get_char(i) {
            return false;
        }
        assert(a@.subrange(0, i + 1) == a@.subrange(0, i as int).push(a@[i as int]));
        assert(b@.subrange(0, i + 1) == b@.subrange(0, i as int).push(b@[i as int]));
        i = i + 1;
    }
    assert(a@ == a@.subrange(0, n as int));
    assert(b@ == b@.subrange(0, n as int));
    true
}

/// Whether `p` occurs in `s[from..to]`.
pub fn contains_at(s: &Vec<char>, from: usize, to: usize, p: &str) -> (r: bool)
    requires
        from <= to <= s@.len(),
    ensures
        r == contains(s@.subrange(from as int, to as int), p@),
{
    let m = p.unicode_len();
    let pc = chars_of(p);
    let ghost t = s@.subrange(from as int, to as int);
    if m > to - from {
        return false;
    }
    let mut i: usize = from;
    while i <= to - m
        invariant
            from <= i,
            m == p@.len(),
            pc@ == p@,
            m <= to - from,
            to <= s@.len(),
            t == s@.subrange(from as int, to as int),
            forall|k: int| 0 <= k < i - from ==> #[trigger] t.subrange(k, k + m) != p@,
        decreases to - i,
    {
        let mut j: usize = 0;
        let mut same = true;
        while j < m
            invariant
                i + m <= to,
                to <= s@.len(),
                m == pc@.len(),
                j <= m,
                same <==> forall|q: int| 0 <= q < j ==> s@[i + q] == pc@[q],
            decreases m - j,
        {
            if s[i + j] != pc[j] {
                same = false;
            }
            j = j + 1;
        }
        if same {
            assert(t.subrange(i - from, i - from + m) =~= p@);
            return true;
        }
        assert(t.subrange(i - from, i - from + m) != p@) by {
            let q = choose|q: int| 0 <= q < m && s@[i + q] != pc@[q];
            assert(t.subrange(i - from, i - from + m)[q] == s@[i + q]);
        }
        i = i + 1;
    }
    assert forall|k: int| 0 <= k && k + p@.len() <= t.len() implies #[trigger] t.subrange(k, k + p@.len()) != p@ by {
        assert(k < i - from);
    }
    false
}

/// The notation of a digit below ten.
fn digit_text(d: usize) -> (r: &'static str)
    requires
        d < 10,
    ensures
        r@ == seq![digit_char(d as nat)],
{
    proof {
        reveal_strlit("0");
        reveal_strlit("1");
        reveal_strlit("2");
        reveal_strlit("3");
        reveal_strlit("4");
        reveal_strlit("5");
        reveal_strlit("6");
        reveal_strlit("7");
        reveal_strlit("8");
        reveal_strlit("9");
    }
    if d == 0 {
        "0"
    } else if d == 1 {
        "1"
    } else if d == 2 {
        "2"
    } else if d == 3 {
        "3"
    } else if d == 4 {
        "4"
    } else if d == 5 {
        "5"
    } else if d == 6 {
        "6"
    } else if d == 7 {
        "7"
    } else if d == 8 {
        "8"
    } else {
        "9"
    }
}

/// Appends the decimal notation of `n` to `out`.
pub fn push_decimal(out: &mut String, n: usize)
    ensures
        final(out)@ == old(out)@ + decimal(n as nat),
    decreases n,
{
    if n >= 10 {
        push_decimal(out, n / 10);
        let d = digit_text(n % 10);
        out.append(d);
        assert(decimal(n as nat) == decimal((n / 10) as nat).push(digit_char((n % 10) as nat)));
    } else {
        let d = digit_text(n);
        out.append(d);
    }
}

/// The pieces of `s` from position `start` on, split at each `c`.
pub open spec fn pieces_from(s: Seq<char>, c: char, start: int) -> Seq<Seq<char>>
    decreases s.len() - start,
{
    if start < 0 || start > s.len() {
        Seq::empty()
    } else {
        let j = first_index(s.subrange(start, s.len() as int), c);
        if j < 0 || j >= s.len() - start {
            seq![s.subrange(start, s.len() as int)]
        } else {
            seq![s.subrange(start, start + j)] + pieces_from(s, c, start + j + 1)
        }
    }
}

/// The `n`-th piece of `s` split at each `c`, counting from zero, if
/// there are that many.
pub open spec fn piece(s: Seq<char>, c: char, n: int) -> Option<Seq<char>> {
    let ps = pieces_from(s, c, 0);
    if 0 <= n < ps.len() {
        Some(ps[n])
    } else {
        None
    }
}

/// A piece that ends at a separator is followed by the pieces after it.
pub proof fn lemma_pieces_step(s: Seq<char>, c: char, start: int, j: int)
    requires
        0 <= start,
        0 <= j,
        start + j < s.len(),
        s[start + j] == c,
        forall|m: int| start <= m < start + j ==> s[m] != c,
    ensures
        pieces_from(s, c, start) == seq![s.subrange(start, start + j)] + pieces_from(
            s,
            c,
            start + j + 1,
        ),
{
    let rest = s.subrange(start, s.len() as int);
    lemma_first_index_at(rest, c, j);
}

/// Whether `s` ends with `suffix`.
pub open spec fn ends_with(s: Seq<char>, suffix: Seq<char>) -> bool {
    s.len() >= suffix.len() && s.subrange(s.len() - suffix.len(), s.len() as int) == suffix
}

/// The `n`-th piece of `s` split at each `c`, counting from zero.
pub fn nth_piece(s: &str, c: char, n: usize) -> (r: Option<String>)
    ensures
        match r {
            Some(p) => piece(s@, c, n as int) == Some(p@),
            None => piece(s@, c, n as int) is None,
        },
{
    let cs = chars_of(s);
    let len = cs.len();
    let ghost all = pieces_from(s@, c, 0);
    let mut start: usize = 0;
    let mut k: usize = 0;
    let mut i: usize = 0;
    while i < len
        invariant
            cs@ == s@,
            len == s@.len(),
            all == pieces_from(s@, c, 0),
            start <= i <= len,
            k <= n,
            forall|m: int| start <= m < i ==> s@[m] != c,
            all.len() == k + pieces_from(s@, c, start as int).len(),
            forall|m: int|
                0 <= m < pieces_from(s@, c, start as int).len() ==> all[k + m]
                    == #[trigger] pieces_from(s@, c, start as int)[m],
        decreases len - i,
    {
        if cs[i] == c {
            let ghost rest = s@.subrange(start as int, len as int);
            proof {
                lemma_first_index_at(rest, c, i - start);
                assert(s@.subrange(start as int, i as int) == rest.subrange(0, i - start));
            }
            let ghost here = pieces_from(s@, c, start as int);
            assert(here == seq![s@.subrange(start as int, i as int)] + pieces_from(s@, c, i + 1));
            if k == n {
                assert(here[0] == s@.subrange(start as int, i as int));
                assert(all[k + 0] == pieces_from(s@, c, start as int)[0]);
                assert(all.len() > k);
                let p = s.substring_char(start, i).to_owned();
                assert(p@ == all[n as int]);
                return Some(p);
            }
            assert forall|m: int| 0 <= m < pieces_from(s@, c, i + 1).len() implies all[k + 1 + m]
                == #[trigger] pieces_from(s@, c, i + 1)[m] by {
                assert(here[m + 1] == pieces_from(s@, c, i + 1)[m]);
            }
            k = k + 1;
            start = i + 1;
        }
        i = i + 1;
    }
    let ghost rest = s@.subrange(start as int, len as int);
    proof {
        lemma_first_index_at(rest, c, -1);
    }
    assert(pieces_from(s@, c, start as int) == seq![rest]);
    if k == n {
        assert(all[k + 0] == pieces_from(s@, c, start as int)[0]);
        Some(s.substring_char(start, len).to_owned())
    } else {
        None
    }
}

/// Whether `s` ends with `suffix`.
pub fn has_suffix(s: &str, suffix: &str) -> (r: bool)
    ensures
        r == ends_with(s@, suffix@),
{
    let n = s.unicode_len();
    let m = suffix.unicode_len();
    if m > n {
        return false;
    }
    same_text(s.substring_char(n - m, n), suffix)
}

} // verus!
