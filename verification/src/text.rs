//! Character-level string utilities shared by the compiler's verified logic.

use vstd::prelude::*;

verus! {

/// Lexicographic order on character sequences, by code point; the order of
/// Rust's `str` comparison.
pub open spec fn lex_lt(a: Seq<char>, b: Seq<char>) -> bool
    decreases a.len(),
{
    if b.len() == 0 {
        false
    } else if a.len() == 0 {
        true
    } else if a[0] != b[0] {
        a[0] < b[0]
    } else {
        lex_lt(a.drop_first(), b.drop_first())
    }
}

/// [`lex_lt`] is irreflexive and asymmetric.
pub proof fn lemma_lex_asymmetric(a: Seq<char>, b: Seq<char>)
    ensures
        !lex_lt(a, a),
        lex_lt(a, b) ==> !lex_lt(b, a),
    decreases a.len(),
{
    if a.len() != 0 && b.len() != 0 && a[0] == b[0] {
        lemma_lex_asymmetric(a.drop_first(), b.drop_first());
    }
    if a.len() != 0 {
        lemma_lex_asymmetric(a.drop_first(), a.drop_first());
    }
}

/// [`lex_lt`] is transitive.
pub proof fn lemma_lex_transitive(a: Seq<char>, b: Seq<char>, c: Seq<char>)
    requires
        lex_lt(a, b),
        lex_lt(b, c),
    ensures
        lex_lt(a, c),
    decreases a.len(),
{
    if a.len() != 0 && b.len() != 0 && c.len() != 0 && a[0] == b[0] && b[0] == c[0] {
        lemma_lex_transitive(a.drop_first(), b.drop_first(), c.drop_first());
    }
}

/// [`lex_lt`] is total on distinct sequences.
pub proof fn lemma_lex_total(a: Seq<char>, b: Seq<char>)
    ensures
        a != b ==> lex_lt(a, b) || lex_lt(b, a),
    decreases a.len(),
{
    if a.len() != 0 && b.len() != 0 {
        if a[0] == b[0] {
            lemma_lex_total(a.drop_first(), b.drop_first());
            if a.drop_first() == b.drop_first() {
                assert(a =~= seq![a[0]] + a.drop_first());
                assert(b =~= seq![b[0]] + b.drop_first());
            }
        } else {
        }
    } else if a.len() == 0 && b.len() == 0 {
        assert(a =~= b);
    }
}

/// ASCII letters.
pub open spec fn ascii_alphabetic(c: char) -> bool {
    ('a' <= c && c <= 'z') || ('A' <= c && c <= 'Z')
}

/// ASCII letters and digits.
pub open spec fn ascii_alphanumeric(c: char) -> bool {
    ascii_alphabetic(c) || ('0' <= c && c <= '9')
}

/// `char::is_ascii_alphabetic`.
pub fn is_ascii_alphabetic(c: char) -> (r: bool)
    ensures
        r == ascii_alphabetic(c),
{
    ('a' <= c && c <= 'z') || ('A' <= c && c <= 'Z')
}

/// `char::is_ascii_alphanumeric`.
pub fn is_ascii_alphanumeric(c: char) -> (r: bool)
    ensures
        r == ascii_alphanumeric(c),
{
    is_ascii_alphabetic(c) || ('0' <= c && c <= '9')
}

/// The characters of `s`, in order.
pub fn chars_of(s: &str) -> (r: Vec<char>)
    ensures
        r@ == s@,
{
    let n = s.unicode_len();
    let mut out: Vec<char> = Vec::new();
    let mut i: usize = 0;
    while i < n
        invariant
            n == s@.len(),
            i <= n,
            out@ == s@.subrange(0, i as int),
        decreases n - i,
    {
        out.push(s.get_char(i));
        i = i + 1;
        assert(out@ =~= s@.subrange(0, i as int));
    }
    assert(s@.subrange(0, n as int) =~= s@);
    out
}

/// The string with the characters of `cs`.
pub fn string_of(cs: &Vec<char>) -> (r: String)
    ensures
        r@ == cs@,
{
    let mut out = String::new();
    let mut i: usize = 0;
    while i < cs.len()
        invariant
            i <= cs@.len(),
            out@ == cs@.subrange(0, i as int),
        decreases cs@.len() - i,
    {
        push_char(&mut out, cs[i]);
        i = i + 1;
        assert(out@ =~= cs@.subrange(0, i as int));
    }
    assert(cs@.subrange(0, cs@.len() as int) =~= cs@);
    out
}

/// Whether `p` is a prefix of `s`.
pub open spec fn is_prefix(p: Seq<char>, s: Seq<char>) -> bool {
    p.len() <= s.len() && s.subrange(0, p.len() as int) == p
}

/// The characters of `parts` joined with `sep` between neighbours.
pub open spec fn join_spec(parts: Seq<String>, sep: Seq<char>) -> Seq<char>
    decreases parts.len(),
{
    if parts.len() == 0 {
        Seq::empty()
    } else if parts.len() == 1 {
        parts[0]@
    } else {
        join_spec(parts.drop_last(), sep) + sep + parts.last()@
    }
}

/// The character sequences `parts` joined with `sep` between neighbours.
pub open spec fn join_chars(parts: Seq<Seq<char>>, sep: Seq<char>) -> Seq<char>
    decreases parts.len(),
{
    if parts.len() == 0 {
        Seq::empty()
    } else if parts.len() == 1 {
        parts[0]
    } else {
        join_chars(parts.drop_last(), sep) + sep + parts.last()
    }
}

/// Joining strings joins their characters.
pub proof fn lemma_join_views(parts: Seq<String>, sep: Seq<char>)
    ensures
        join_spec(parts, sep) == join_chars(parts.map_values(|x: String| x@), sep),
    decreases parts.len(),
{
    if parts.len() > 1 {
        lemma_join_views(parts.drop_last(), sep);
        assert(parts.drop_last().map_values(|x: String| x@) =~= parts.map_values(|x: String| x@).drop_last());
    }
}

/// Joins `parts` with `sep` between neighbours.
pub fn join_strings(parts: &Vec<String>, sep: &str) -> (r: String)
    ensures
        r@ == join_spec(parts@, sep@),
{
    let mut out = String::new();
    let mut i: usize = 0;
    while i < parts.len()
        invariant
            i <= parts@.len(),
            out@ == join_spec(parts@.take(i as int), sep@),
        decreases parts@.len() - i,
    {
        if i > 0 {
            out.append(sep);
        }
        out.append(parts[i].as_str());
        proof {
            assert(parts@.take(i + 1).drop_last() =~= parts@.take(i as int));
            assert(parts@.take(i + 1).last() == parts@[i as int]);
            if i == 0 {
                assert(parts@.take(1)[0] == parts@[0]);
            }
        }
        i = i + 1;
    }
    assert(parts@.take(parts@.len() as int) =~= parts@);
    out
}

/// Appends one character; `String::push`.
#[verifier::external_body]
pub fn push_char(s: &mut String, c: char)
    ensures
        final(s)@ == old(s)@.push(c),
{
    s.push(c)
}

/// Compares two strings by code point order.
pub fn str_lt(a: &str, b: &str) -> (r: bool)
    ensures
        r == lex_lt(a@, b@),
{
    let na = a.unicode_len();
    let nb = b.unicode_len();
    let mut i: usize = 0;
    assert(a@.subrange(0, na as int) =~= a@);
    assert(b@.subrange(0, nb as int) =~= b@);
    while i < na && i < nb
        invariant
            na == a@.len(),
            nb == b@.len(),
            i <= na,
            i <= nb,
            lex_lt(a@, b@) == lex_lt(a@.subrange(i as int, na as int), b@.subrange(i as int, nb as int)),
        decreases na - i,
    {
        let ca = a.get_char(i);
        let cb = b.get_char(i);
        assert(a@.subrange(i as int, na as int).drop_first() =~= a@.subrange(i + 1, na as int));
        assert(b@.subrange(i as int, nb as int).drop_first() =~= b@.subrange(i + 1, nb as int));
        if ca != cb {
            return ca < cb;
        }
        i = i + 1;
    }
    assert(a@.subrange(i as int, na as int).len() == na - i);
    i == na && i < nb
}

/// Whether two strings have the same characters.
pub fn str_eq(a: &str, b: &str) -> (r: bool)
    ensures
        r == (a@ == b@),
{
    let n = a.unicode_len();
    if n != b.unicode_len() {
        return false;
    }
    let mut i: usize = 0;
    while i < n
        invariant
            n == a@.len(),
            n == b@.len(),
            i <= n,
            forall|k: int| 0 <= k < i ==> a@[k] == b@[k],
        decreases n - i,
    {
        if a.get_char(i) != b.get_char(i) {
            return false;
        }
        i = i + 1;
    }
    assert(a@ =~= b@);
    true
}

/// Whether `p` is a prefix of `s`.
pub fn str_has_prefix(s: &str, p: &str) -> (r: bool)
    ensures
        r == is_prefix(p@, s@),
{
    let ns = s.unicode_len();
    let np = p.unicode_len();
    if np > ns {
        return false;
    }
    let mut i: usize = 0;
    while i < np
        invariant
            ns == s@.len(),
            np == p@.len(),
            np <= ns,
            i <= np,
            forall|k: int| 0 <= k < i ==> s@[k] == p@[k],
        decreases np - i,
    {
        if s.get_char(i) != p.get_char(i) {
            assert(s@.subrange(0, np as int)[i as int] != p@[i as int]);
            return false;
        }
        i = i + 1;
    }
    assert(s@.subrange(0, np as int) =~= p@);
    true
}

} // verus!

verus! {

/// The characters of `cs` from `from` up to `to`.
pub fn substring(cs: &Vec<char>, from: usize, to: usize) -> (r: String)
    requires
        from <= to <= cs@.len(),
    ensures
        r@ == cs@.subrange(from as int, to as int),
{
    let mut out = String::new();
    let mut i = from;
    while i < to
        invariant
            from <= i <= to <= cs@.len(),
            out@ == cs@.subrange(from as int, i as int),
        decreases to - i,
    {
        push_char(&mut out, cs[i]);
        i = i + 1;
        assert(out@ =~= cs@.subrange(from as int, i as int));
    }
    out
}

/// A `::` separator starts at `k`.
pub open spec fn separator_at(s: Seq<char>, k: int) -> bool {
    0 <= k && k + 1 < s.len() && s[k] == ':' && s[k + 1] == ':'
}

/// The first separator at or after `from`, or -1.
pub open spec fn first_separator_from(s: Seq<char>, from: int) -> int
    decreases s.len() - from,
{
    if from < 0 || from + 1 >= s.len() {
        -1
    } else if separator_at(s, from) {
        from
    } else {
        first_separator_from(s, from + 1)
    }
}

/// Where the first separator at or after `from` lies.
pub proof fn lemma_first_separator_from(s: Seq<char>, from: int)
    requires
        0 <= from,
    ensures
        first_separator_from(s, from) == -1 || (from <= first_separator_from(s, from) && separator_at(
            s,
            first_separator_from(s, from),
        )),
        forall|k: int|
            from <= k && (first_separator_from(s, from) == -1 || k < first_separator_from(s, from))
                ==> !#[trigger] separator_at(s, k),
    decreases s.len() - from,
{
    if from + 1 < s.len() && !separator_at(s, from) {
        lemma_first_separator_from(s, from + 1);
    }
}

/// The `::`-separated pieces of `s` from `from` on, as `str::split` gives them.
pub open spec fn split_from(s: Seq<char>, from: int) -> Seq<Seq<char>>
    decreases s.len() - from,
{
    if from < 0 || from > s.len() {
        Seq::empty()
    } else {
        let k = first_separator_from(s, from);
        if k == -1 {
            seq![s.subrange(from, s.len() as int)]
        } else {
            proof {
                lemma_first_separator_from(s, from);
            }
            seq![s.subrange(from, k)] + split_from(s, k + 2)
        }
    }
}

/// The `::`-separated pieces of `s`.
pub open spec fn split_path(s: Seq<char>) -> Seq<Seq<char>> {
    split_from(s, 0)
}

/// Skipping characters that start no separator keeps the next separator.
proof fn lemma_first_separator_skip(s: Seq<char>, from: int, i: int)
    requires
        0 <= from <= i,
        forall|k: int| from <= k < i ==> !#[trigger] separator_at(s, k),
    ensures
        first_separator_from(s, from) == first_separator_from(s, i),
    decreases i - from,
{
    if from < i && from + 1 < s.len() {
        lemma_first_separator_skip(s, from + 1, i);
    }
}

/// Splits a string at each `::`, as `str::split("::")`.
pub fn split_path_string(s: &str) -> (r: Vec<String>)
    ensures
        r@.map_values(|x: String| x@) == split_path(s@),
{
    let cs = chars_of(s);
    let n = cs.len();
    let mut out: Vec<String> = Vec::new();
    let mut start: usize = 0;
    let mut i: usize = 0;
    while n - i > 1
        invariant
            n == s@.len(),
            cs@ == s@,
            start <= i <= n,
            forall|k: int| start <= k < i ==> !#[trigger] separator_at(s@, k),
            out@.map_values(|x: String| x@) + split_from(s@, start as int) == split_path(s@),
        decreases n - i,
    {
        if cs[i] == ':' && cs[i + 1] == ':' {
            let piece = substring(&cs, start, i);
            proof {
                lemma_first_separator_skip(s@, start as int, i as int);
                assert(separator_at(s@, i as int));
                assert(first_separator_from(s@, start as int) == i);
                assert(split_from(s@, start as int) == seq![s@.subrange(start as int, i as int)]
                    + split_from(s@, i + 2));
            }
            let ghost before = out@;
            out.push(piece);
            proof {
                assert(out@.map_values(|x: String| x@) =~= before.map_values(|x: String| x@)
                    + seq![s@.subrange(start as int, i as int)]);
            }
            start = i + 2;
            i = i + 2;
        } else {
            assert(!separator_at(s@, i as int));
            i = i + 1;
        }
    }
    proof {
        assert forall|k: int| start <= k < s@.len() implies !#[trigger] separator_at(s@, k) by {}
        if start < n {
            lemma_first_separator_skip(s@, start as int, i as int);
        }
        assert(first_separator_from(s@, start as int) == -1) by {
            if start + 1 < n {
                lemma_first_separator_from(s@, start as int);
            }
        }
    }
    let ghost before = out@;
    let last = substring(&cs, start, n);
    out.push(last);
    assert(out@.map_values(|x: String| x@) =~= before.map_values(|x: String| x@) + seq![
        s@.subrange(start as int, n as int),
    ]);
    out
}

} // verus!

verus! {

/// The first occurrence of `c` at or after `from`, or -1.
pub open spec fn first_char_from(s: Seq<char>, c: char, from: int) -> int
    decreases s.len() - from,
{
    if from < 0 || from >= s.len() {
        -1
    } else if s[from] == c {
        from
    } else {
        first_char_from(s, c, from + 1)
    }
}

/// Where the first occurrence of `c` at or after `from` lies.
pub proof fn lemma_first_char_from(s: Seq<char>, c: char, from: int)
    requires
        0 <= from,
    ensures
        first_char_from(s, c, from) == -1 || (from <= first_char_from(s, c, from) < s.len()
            && s[first_char_from(s, c, from)] == c),
        forall|k: int|
            from <= k < s.len() && (first_char_from(s, c, from) == -1 || k < first_char_from(s, c, from))
                ==> #[trigger] s[k] != c,
    decreases s.len() - from,
{
    if from < s.len() && s[from] != c {
        lemma_first_char_from(s, c, from + 1);
    }
}

/// The pieces of `s` between occurrences of `c`, from `from` on, as
/// `str::split(c)` gives them.
pub open spec fn split_char_from(s: Seq<char>, c: char, from: int) -> Seq<Seq<char>>
    decreases s.len() - from,
{
    if from < 0 || from > s.len() {
        Seq::empty()
    } else {
        let k = first_char_from(s, c, from);
        if k == -1 {
            seq![s.subrange(from, s.len() as int)]
        } else {
            proof {
                lemma_first_char_from(s, c, from);
            }
            seq![s.subrange(from, k)] + split_char_from(s, c, k + 1)
        }
    }
}

/// The pieces of `s` between occurrences of `c`.
pub open spec fn split_char(s: Seq<char>, c: char) -> Seq<Seq<char>> {
    split_char_from(s, c, 0)
}

/// Skipping other characters keeps the next occurrence of `c`.
proof fn lemma_first_char_skip(s: Seq<char>, c: char, from: int, i: int)
    requires
        0 <= from <= i <= s.len(),
        forall|k: int| from <= k < i ==> #[trigger] s[k] != c,
    ensures
        first_char_from(s, c, from) == first_char_from(s, c, i),
    decreases i - from,
{
    if from < i {
        lemma_first_char_skip(s, c, from + 1, i);
    }
}

/// Splits a string at each occurrence of `c`, as `str::split(c)`.
pub fn split_char_string(s: &str, c: char) -> (r: Vec<String>)
    ensures
        r@.map_values(|x: String| x@) == split_char(s@, c),
{
    let cs = chars_of(s);
    let n = cs.len();
    let mut out: Vec<String> = Vec::new();
    let mut start: usize = 0;
    let mut i: usize = 0;
    while i < n
        invariant
            n == s@.len(),
            cs@ == s@,
            start <= i <= n,
            forall|k: int| start <= k < i ==> #[trigger] s@[k] != c,
            out@.map_values(|x: String| x@) + split_char_from(s@, c, start as int) == split_char(s@, c),
        decreases n - i,
    {
        if cs[i] == c {
            let piece = substring(&cs, start, i);
            proof {
                lemma_first_char_skip(s@, c, start as int, i as int);
                assert(first_char_from(s@, c, start as int) == i);
            }
            let ghost before = out@;
            out.push(piece);
            proof {
                assert(out@.map_values(|x: String| x@) =~= before.map_values(|x: String| x@)
                    + seq![s@.subrange(start as int, i as int)]);
            }
            start = i + 1;
            i = i + 1;
        } else {
            i = i + 1;
        }
    }
    proof {
        lemma_first_char_skip(s@, c, start as int, n as int);
    }
    let ghost before = out@;
    let last = substring(&cs, start, n);
    out.push(last);
    assert(out@.map_values(|x: String| x@) =~= before.map_values(|x: String| x@) + seq![
        s@.subrange(start as int, n as int),
    ]);
    out
}

} // verus!

verus! {

/// Splitting at a character always gives at least one piece.
pub proof fn lemma_split_char_nonempty(s: Seq<char>, c: char)
    ensures
        split_char(s, c).len() >= 1,
{
    reveal_with_fuel(split_char_from, 1);
}

} // verus!

verus! {

/// The decimal digit for `d < 10`.
pub open spec fn digit_char(d: nat) -> char {
    if d == 0 {
        '0'
    } else if d == 1 {
        '1'
    } else if d == 2 {
        '2'
    } else if d == 3 {
        '3'
    } else if d == 4 {
        '4'
    } else if d == 5 {
        '5'
    } else if d == 6 {
        '6'
    } else if d == 7 {
        '7'
    } else if d == 8 {
        '8'
    } else {
        '9'
    }
}

/// The decimal spelling of `n`, without leading zeros.
pub open spec fn decimal(n: nat) -> Seq<char>
    decreases n,
{
    if n < 10 {
        seq![digit_char(n)]
    } else {
        decimal(n / 10).push(digit_char(n % 10))
    }
}

/// Spells a digit.
fn digit(d: usize) -> (r: char)
    requires
        d < 10,
    ensures
        r == digit_char(d as nat),
{
    if d == 0 {
        '0'
    } else if d == 1 {
        '1'
    } else if d == 2 {
        '2'
    } else if d == 3 {
        '3'
    } else if d == 4 {
        '4'
    } else if d == 5 {
        '5'
    } else if d == 6 {
        '6'
    } else if d == 7 {
        '7'
    } else if d == 8 {
        '8'
    } else {
        '9'
    }
}

/// Spells `n` in decimal.
pub fn usize_decimal(n: usize) -> (r: String)
    ensures
        r@ == decimal(n as nat),
    decreases n,
{
    if n < 10 {
        let mut s = String::new();
        push_char(&mut s, digit(n));
        assert(s@ =~= seq![digit_char(n as nat)]);
        s
    } else {
        let mut s = usize_decimal(n / 10);
        push_char(&mut s, digit(n % 10));
        s
    }
}

/// Spells `n` in decimal.
pub fn u64_decimal(n: u64) -> (r: String)
    ensures
        r@ == decimal(n as nat),
    decreases n,
{
    if n < 10 {
        let mut s = String::new();
        push_char(&mut s, digit(n as usize));
        assert(s@ =~= seq![digit_char(n as nat)]);
        s
    } else {
        let mut s = u64_decimal(n / 10);
        push_char(&mut s, digit((n % 10) as usize));
        s
    }
}

} // verus!
