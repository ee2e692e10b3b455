//! Text helpers over `Seq<char>`: comparison, splitting, trimming and decimal numbers.

use vstd::prelude::*;
use vstd::utf8::*;

verus! {

/// `String::push` appends one character.
pub assume_specification[ String::push ](s: &mut String, c: char)
    ensures
        final(s)@ == old(s)@.push(c),
;

/// The length of a text in UTF-8 bytes.
pub open spec fn byte_len(s: Seq<char>) -> nat {
    encode_utf8(s).len()
}

/// The length of a text in UTF-8 bytes.
pub fn text_len(s: &str) -> (r: usize)
    ensures
        r == byte_len(s@),
{
    s.as_bytes().len()
}

/// The views of a sequence of strings.
pub open spec fn views(v: Seq<String>) -> Seq<Seq<char>> {
    Seq::new(v.len(), |i: int| v[i]@)
}

/// The view of an optional string.
pub open spec fn opt_view(o: Option<String>) -> Option<Seq<char>> {
    match o {
        Some(s) => Some(s@),
        None => None,
    }
}

/// The view of an optional string slice.
pub open spec fn opt_str_view(o: Option<&str>) -> Option<Seq<char>> {
    match o {
        Some(s) => Some(s@),
        None => None,
    }
}

/// Distinct texts have distinct encodings.
pub proof fn lemma_encoding_injective(a: Seq<char>, b: Seq<char>)
    ensures
        encode_utf8(a) == encode_utf8(b) <==> a == b,
{
    encode_utf8_decode_utf8(a);
    encode_utf8_decode_utf8(b);
}

/// Whether two texts are equal.
pub fn str_eq(a: &str, b: &str) -> (r: bool)
    ensures
        r == (a@ == b@),
{
    let x: &[u8] = a.as_bytes();
    let y: &[u8] = b.as_bytes();
    proof {
        lemma_encoding_injective(a@, b@);
    }
    if x.len() != y.len() {
        return false;
    }
    let mut i: usize = 0;
    while i < x.len()
        invariant
            x@.len() == y@.len(),
            i <= x@.len(),
            forall|j: int| 0 <= j < i ==> x@[j] == y@[j],
            x@ == encode_utf8(a@),
            y@ == encode_utf8(b@),
            encode_utf8(a@) == encode_utf8(b@) <==> a@ == b@,
        decreases x@.len() - i,
    {
        if x[i] != y[i] {
            return false;
        }
        i += 1;
    }
    proof {
        assert(x@ =~= y@);
    }
    true
}

/// The characters of a text.
pub fn chars_of(s: &str) -> (r: Vec<char>)
    ensures
        r@ == s@,
{
    let mut out: Vec<char> = Vec::new();
    for c in it: s.chars()
        invariant
            it.seq() == s@,
            out@ == s@.take(it.index() as int),
    {
        out.push(c);
    }
    proof {
        assert(s@.take(s@.len() as int) =~= s@);
    }
    out
}

/// The text made of the characters `from..to`.
pub fn text_of(v: &Vec<char>, from: usize, to: usize) -> (r: String)
    requires
        from <= to <= v@.len(),
    ensures
        r@ == v@.subrange(from as int, to as int),
{
    let mut out: String = String::new();
    let mut i: usize = from;
    while i < to
        invariant
            from <= i <= to <= v@.len(),
            out@ == v@.subrange(from as int, i as int),
        decreases to - i,
    {
        out.push(v[i]);
        i += 1;
        proof {
            assert(v@.subrange(from as int, i as int) =~= v@.subrange(from as int, i - 1).push(v@[i - 1]));
        }
    }
    out
}

/// The first position of `c` in `s`, or the length of `s` where it does not occur.
pub open spec fn first_index(s: Seq<char>, c: char) -> int
    decreases s.len(),
{
    if s.len() == 0 || s[0] == c {
        0
    } else {
        1 + first_index(s.drop_first(), c)
    }
}

/// `first_index` is the least position at which `c` occurs.
pub proof fn lemma_first_index(s: Seq<char>, c: char)
    ensures
        0 <= first_index(s, c) <= s.len(),
        first_index(s, c) < s.len() <==> s.contains(c),
        first_index(s, c) < s.len() ==> s[first_index(s, c)] == c,
        forall|i: int| 0 <= i < first_index(s, c) ==> s[i] != c,
    decreases s.len(),
{
    if s.len() != 0 && s[0] != c {
        let t = s.drop_first();
        lemma_first_index(t, c);
        assert forall|i: int| 0 <= i < first_index(s, c) implies s[i] != c by {
            if i > 0 {
                assert(t[i - 1] == s[i]);
            }
        }
        if s.contains(c) {
            let k = choose|k: int| 0 <= k < s.len() && s[k] == c;
            assert(t[k - 1] == c);
        }
        if first_index(s, c) < s.len() {
            assert(t[first_index(t, c)] == s[first_index(s, c)]);
        }
    }
}

/// The least position at which `c` occurs is `first_index`.
pub proof fn lemma_first_index_is(s: Seq<char>, c: char, k: int)
    requires
        0 <= k < s.len(),
        s[k] == c,
        forall|i: int| 0 <= i < k ==> s[i] != c,
    ensures
        first_index(s, c) == k,
{
    lemma_first_index(s, c);
}

/// The parts of `s` before and after the first `c`, where `c` occurs.
pub open spec fn split_first(s: Seq<char>, c: char) -> Option<(Seq<char>, Seq<char>)> {
    if s.contains(c) {
        let i = first_index(s, c);
        Some((s.take(i), s.skip(i + 1)))
    } else {
        None
    }
}

/// The view of a split text.
pub open spec fn pair_view(p: Option<(String, String)>) -> Option<(Seq<char>, Seq<char>)> {
    match p {
        Some((a, b)) => Some((a@, b@)),
        None => None,
    }
}

/// Splits a text at the first occurrence of a character.
pub fn split_once(s: &str, c: char) -> (r: Option<(String, String)>)
    ensures
        pair_view(r) == split_first(s@, c),
{
    let v: Vec<char> = chars_of(s);
    let mut i: usize = 0;
    while i < v.len()
        invariant
            v@ == s@,
            i <= v@.len(),
            forall|j: int| 0 <= j < i ==> v@[j] != c,
        decreases v@.len() - i,
    {
        if v[i] == c {
            let a: String = text_of(&v, 0, i);
            let b: String = text_of(&v, i + 1, v.len());
            proof {
                lemma_first_index_is(s@, c, i as int);
                assert(s@.contains(c));
                assert(a@ =~= s@.take(i as int));
                assert(b@ =~= s@.skip(i + 1));
            }
            return Some((a, b));
        }
        i += 1;
    }
    None
}

/// The Unicode `White_Space` characters.
pub open spec fn is_space(c: char) -> bool {
    let u = c as u32;
    ||| 0x9 <= u <= 0xd
    ||| u == 0x20
    ||| u == 0x85
    ||| u == 0xa0
    ||| u == 0x1680
    ||| 0x2000 <= u <= 0x200a
    ||| u == 0x2028
    ||| u == 0x2029
    ||| u == 0x202f
    ||| u == 0x205f
    ||| u == 0x3000
}

/// Whether a character is white space.
pub fn space(c: char) -> (r: bool)
    ensures
        r == is_space(c),
{
    let u: u32 = c as u32;
    (0x9 <= u && u <= 0xd) || u == 0x20 || u == 0x85 || u == 0xa0 || u == 0x1680 || (0x2000 <= u
        && u <= 0x200a) || u == 0x2028 || u == 0x2029 || u == 0x202f || u == 0x205f || u == 0x3000
}

/// `s` without the white space at its start.
pub open spec fn trim_start_spec(s: Seq<char>) -> Seq<char>
    decreases s.len(),
{
    if s.len() > 0 && is_space(s[0]) {
        trim_start_spec(s.drop_first())
    } else {
        s
    }
}

/// `s` without the white space at its end.
pub open spec fn trim_end_spec(s: Seq<char>) -> Seq<char>
    decreases s.len(),
{
    if s.len() > 0 && is_space(s.last()) {
        trim_end_spec(s.drop_last())
    } else {
        s
    }
}

/// `s` without the white space at either end.
pub open spec fn trimmed(s: Seq<char>) -> Seq<char> {
    trim_end_spec(trim_start_spec(s))
}

/// The text without the white space at either end.
pub fn trim(s: &str) -> (r: String)
    ensures
        r@ == trimmed(s@),
{
    let v: Vec<char> = chars_of(s);
    let mut lo: usize = 0;
    proof {
        assert(v@.skip(0) =~= v@);
    }
    while lo < v.len() && space(v[lo])
        invariant
            lo <= v@.len(),
            v@ == s@,
            trim_start_spec(v@.skip(lo as int)) == trim_start_spec(s@),
        decreases v@.len() - lo,
    {
        proof {
            assert(v@.skip(lo as int).drop_first() =~= v@.skip(lo + 1));
        }
        lo += 1;
    }
    let ghost rest = v@.skip(lo as int);
    proof {
        assert(trim_start_spec(s@) == rest);
    }
    let mut hi: usize = v.len();
    proof {
        assert(v@.subrange(lo as int, hi as int) =~= rest);
    }
    while lo < hi && space(v[hi - 1])
        invariant
            lo <= hi <= v@.len(),
            trim_end_spec(v@.subrange(lo as int, hi as int)) == trim_end_spec(rest),
        decreases hi - lo,
    {
        proof {
            assert(v@.subrange(lo as int, hi as int).drop_last() =~= v@.subrange(lo as int, hi - 1));
        }
        hi -= 1;
    }
    text_of(&v, lo, hi)
}

/// The character of a decimal digit.
pub open spec fn digit_char(d: nat) -> char {
    (48 + d) as char
}

/// The decimal form of a number, without leading zeros.
pub open spec fn decimal_text(n: nat) -> Seq<char>
    decreases n,
{
    if n < 10 {
        seq![digit_char(n)]
    } else {
        decimal_text(n / 10).push(digit_char(n % 10))
    }
}

fn digit_to_char(d: u8) -> (r: char)
    requires
        d < 10,
    ensures
        r == digit_char(d as nat),
{
    (48 + d) as char
}

/// The decimal form of a number.
pub fn decimal(n: u64) -> (r: String)
    ensures
        r@ == decimal_text(n as nat),
    decreases n,
{
    let low: char = digit_to_char((n % 10) as u8);
    let mut out: String = if n < 10 {
        String::new()
    } else {
        decimal(n / 10)
    };
    out.push(low);
    proof {
        if n < 10 {
            assert(out@ =~= seq![digit_char(n as nat)]);
        }
    }
    out
}

/// Whether a character is an ASCII decimal digit.
pub open spec fn is_digit(c: char) -> bool {
    '0' <= c <= '9'
}

/// The number that a row of decimal digits stands for.
pub open spec fn decimal_value(s: Seq<char>) -> nat
    decreases s.len(),
{
    if s.len() == 0 {
        0
    } else {
        decimal_value(s.drop_last()) * 10 + (s.last() as u32 - 48) as nat
    }
}

/// The digits of a number: what follows one optional leading plus sign.
pub open spec fn unsigned_part(s: Seq<char>) -> Seq<char> {
    if s.len() > 0 && s[0] == '+' {
        s.skip(1)
    } else {
        s
    }
}

/// Whether every character is a decimal digit.
pub open spec fn all_digits(s: Seq<char>) -> bool {
    forall|i: int| 0 <= i < s.len() ==> is_digit(#[trigger] s[i])
}

/// The `u64` that a text writes in decimal, where it writes one.
pub open spec fn parsed_u64(s: Seq<char>) -> Option<u64> {
    let d = unsigned_part(s);
    if d.len() > 0 && all_digits(d) && decimal_value(d) <= u64::MAX {
        Some(decimal_value(d) as u64)
    } else {
        None
    }
}

/// A longer row of digits stands for a number at least as large.
proof fn lemma_decimal_value_monotone(s: Seq<char>, k: int)
    requires
        0 <= k <= s.len(),
    ensures
        decimal_value(s.take(k)) <= decimal_value(s),
    decreases s.len() - k,
{
    if k < s.len() {
        lemma_decimal_value_monotone(s, k + 1);
        assert(s.take(k + 1).drop_last() =~= s.take(k));
    } else {
        assert(s.take(k) =~= s);
    }
}

/// Parses a `u64` in decimal, with one optional leading plus sign.
pub fn parse_u64(s: &str) -> (r: Option<u64>)
    ensures
        r == parsed_u64(s@),
{
    let v: Vec<char> = chars_of(s);
    let start: usize = if v.len() > 0 && v[0] == '+' {
        1
    } else {
        0
    };
    let ghost d = unsigned_part(s@);
    proof {
        assert(d =~= v@.skip(start as int));
    }
    if start == v.len() {
        return None;
    }
    let mut value: u64 = 0;
    let mut i: usize = start;
    proof {
        assert(d.take(0) =~= Seq::<char>::empty());
    }
    while i < v.len()
        invariant
            start <= i <= v@.len(),
            d == v@.skip(start as int),
            d == unsigned_part(s@),
            d.len() > 0,
            all_digits(d.take(i - start)),
            value == decimal_value(d.take(i - start)),
        decreases v@.len() - i,
    {
        let c: char = v[i];
        let ghost k = i - start;
        proof {
            assert(d[k] == c);
            assert(d.take(k + 1).drop_last() =~= d.take(k));
            assert(d.take(k + 1).last() == c);
        }
        if c < '0' || c > '9' {
            proof {
                assert(!is_digit(d[k]));
            }
            return None;
        }
        let low: u64 = (c as u32 - 48) as u64;
        if value > (u64::MAX - low) / 10 {
            proof {
                lemma_decimal_value_monotone(d, k + 1);
                assert(decimal_value(d.take(k + 1)) > u64::MAX);
            }
            return None;
        }
        value = value * 10 + low;
        i += 1;
        proof {
            assert forall|j: int| 0 <= j < k + 1 implies is_digit(#[trigger] d.take(k + 1)[j]) by {
                if j < k {
                    assert(d.take(k + 1)[j] == d.take(k)[j]);
                }
            }
        }
    }
    proof {
        assert(d.take(d.len() as int) =~= d);
    }
    Some(value)
}

/// A number's decimal form reads back as the number.
pub proof fn law_decimal_roundtrip(n: nat)
    ensures
        decimal_value(decimal_text(n)) == n,
        decimal_text(n).len() > 0,
        all_digits(decimal_text(n)),
    decreases n,
{
    let s = decimal_text(n);
    if n < 10 {
        assert(s.drop_last() =~= Seq::empty());
        assert(decimal_value(s.drop_last()) == 0);
    } else {
        law_decimal_roundtrip(n / 10);
        assert(s.drop_last() =~= decimal_text(n / 10));
        assert forall|i: int| 0 <= i < s.len() implies is_digit(#[trigger] s[i]) by {
            if i < s.len() - 1 {
                assert(s[i] == decimal_text(n / 10)[i]);
            }
        }
    }
}

/// A longer beginning holds what a shorter one does, and one text more.
pub proof fn lemma_take_contains(s: Seq<Seq<char>>, n: int, x: Seq<char>)
    requires
        0 <= n < s.len(),
    ensures
        s.take(n + 1).contains(x) <==> s.take(n).contains(x) || x == s[n],
{
    let longer = s.take(n + 1);
    let shorter = s.take(n);
    if shorter.contains(x) {
        let j = choose|j: int| 0 <= j < shorter.len() && shorter[j] == x;
        assert(longer[j] == x);
    }
    assert(longer[n] == s[n]);
    if longer.contains(x) && x != s[n] {
        let j = choose|j: int| 0 <= j < longer.len() && longer[j] == x;
        assert(shorter[j] == x);
    }
}

/// A list with one text more holds what it held, and that text.
pub proof fn lemma_push_contains(s: Seq<Seq<char>>, k: Seq<char>, x: Seq<char>)
    ensures
        s.push(k).contains(x) <==> s.contains(x) || x == k,
{
    let longer = s.push(k);
    if s.contains(x) {
        let j = choose|j: int| 0 <= j < s.len() && s[j] == x;
        assert(longer[j] == x);
    }
    assert(longer[s.len() as int] == k);
    if longer.contains(x) && x != k {
        let j = choose|j: int| 0 <= j < longer.len() && longer[j] == x;
        assert(s[j] == x);
    }
}

// ---------------------------------------------------------------------------
// Lines, cases and parts
// ---------------------------------------------------------------------------

/// The lower-case form of an ASCII letter; every other character as it is.
pub open spec fn lower_char(c: char) -> char {
    if 'A' <= c <= 'Z' {
        (c as u32 + 32) as char
    } else {
        c
    }
}

/// A text with its ASCII letters in lower case.
pub open spec fn lowered_text(s: Seq<char>) -> Seq<char> {
    Seq::new(s.len(), |i: int| lower_char(s[i]))
}

/// The text with its ASCII letters in lower case.
pub fn to_lower(s: &str) -> (r: String)
    ensures
        r@ == lowered_text(s@),
{
    let v: Vec<char> = chars_of(s);
    let mut out: String = String::new();
    let mut i: usize = 0;
    while i < v.len()
        invariant
            i <= v@.len(),
            v@ == s@,
            out@ == lowered_text(s@).take(i as int),
        decreases v@.len() - i,
    {
        let c: char = v[i];
        let l: char = if 'A' <= c && c <= 'Z' {
            ((c as u8) + 32) as char
        } else {
            c
        };
        out.push(l);
        proof {
            assert(lowered_text(s@).take(i + 1) =~= lowered_text(s@).take(i as int).push(
                lowered_text(s@)[i as int],
            ));
        }
        i += 1;
    }
    proof {
        assert(lowered_text(s@).take(s@.len() as int) =~= lowered_text(s@));
    }
    out
}

/// Whether `part` stands in `s` at `i`.
pub open spec fn stands_at(s: Seq<char>, part: Seq<char>, i: int) -> bool {
    0 <= i && i + part.len() <= s.len() && s.subrange(i, i + part.len()) == part
}

/// Whether `part` stands anywhere in `s`.
pub open spec fn has_part(s: Seq<char>, part: Seq<char>) -> bool {
    exists|i: int| #[trigger] stands_at(s, part, i)
}

/// Whether a text holds another.
pub fn contains_text(s: &str, part: &str) -> (r: bool)
    ensures
        r == has_part(s@, part@),
{
    let v: Vec<char> = chars_of(s);
    let w: Vec<char> = chars_of(part);
    let mut i: usize = 0;
    while i <= v.len() && v.len() - i >= w.len()
        invariant
            v@ == s@,
            w@ == part@,
            i <= v@.len() + 1,
            forall|k: int| 0 <= k < i ==> !stands_at(s@, part@, k),
        decreases v@.len() + 1 - i,
    {
        let mut j: usize = 0;
        while j < w.len() && v[i + j] == w[j]
            invariant
                v@ == s@,
                w@ == part@,
                j <= w@.len(),
                i + w@.len() <= v@.len() <= usize::MAX,
                forall|k: int| 0 <= k < j ==> s@[i + k] == part@[k],
            decreases w@.len() - j,
        {
            j += 1;
        }
        if j == w.len() {
            proof {
                assert(s@.subrange(i as int, i + part@.len()) =~= part@);
                assert(stands_at(s@, part@, i as int));
            }
            return true;
        }
        proof {
            assert(!stands_at(s@, part@, i as int)) by {
                if stands_at(s@, part@, i as int) {
                    assert(s@.subrange(i as int, i + part@.len())[j as int] == part@[j as int]);
                }
            }
        }
        if i == v.len() {
            return false;
        }
        i += 1;
    }
    false
}

/// A line without the carriage return before its line feed.
pub open spec fn without_return(line: Seq<char>) -> Seq<char> {
    if line.len() > 0 && line.last() == '\r' {
        line.drop_last()
    } else {
        line
    }
}

/// The lines of a text: what stands before each line feed, and what is left at the end.
pub open spec fn text_lines(s: Seq<char>) -> Seq<Seq<char>>
    decreases s.len(),
{
    if s.len() == 0 {
        Seq::empty()
    } else {
        match split_first(s, '\n') {
            Some((line, rest)) => if rest.len() < s.len() {
                seq![without_return(line)] + text_lines(rest)
            } else {
                Seq::empty()
            },
            None => seq![s],
        }
    }
}

/// The lines of a text.
pub fn lines_of(s: &str) -> (r: Vec<String>)
    ensures
        views(r@) == text_lines(s@),
{
    let v: Vec<char> = chars_of(s);
    let mut out: Vec<String> = Vec::new();
    let mut start: usize = 0;
    proof {
        assert(s@.skip(0) =~= s@);
        assert(views(out@) + text_lines(s@.skip(0)) =~= text_lines(s@));
    }
    while start < v.len()
        invariant
            v@ == s@,
            start <= v@.len(),
            views(out@) + text_lines(s@.skip(start as int)) == text_lines(s@),
        decreases v@.len() - start,
    {
        let ghost rest = s@.skip(start as int);
        let mut i: usize = start;
        while i < v.len() && v[i] != '\n'
            invariant
                v@ == s@,
                start <= i <= v@.len(),
                forall|k: int| start <= k < i ==> s@[k] != '\n',
            decreases v@.len() - i,
        {
            i += 1;
        }
        let ghost before = views(out@);
        if i == v.len() {
            out.push(text_of(&v, start, i));
            proof {
                assert(!rest.contains('\n')) by {
                    assert forall|k: int| 0 <= k < rest.len() implies rest[k] != '\n' by {
                        assert(rest[k] == s@[start + k]);
                    }
                }
                assert(s@.subrange(start as int, i as int) =~= rest);
                assert(views(out@) =~= before + text_lines(rest));
                assert(s@.skip(i as int) =~= Seq::empty());
            }
            start = i;
        } else {
            let end: usize = if i > start && v[i - 1] == '\r' {
                i - 1
            } else {
                i
            };
            out.push(text_of(&v, start, end));
            proof {
                let n = i - start;
                assert(rest[n] == '\n');
                assert forall|k: int| 0 <= k < n implies rest[k] != '\n' by {
                    assert(rest[k] == s@[start + k]);
                }
                lemma_first_index_is(rest, '\n', n);
                assert(rest.contains('\n'));
                let line = rest.take(n);
                assert(line =~= s@.subrange(start as int, i as int));
                assert(s@.subrange(start as int, end as int) =~= without_return(line));
                assert(rest.skip(n + 1) =~= s@.skip(i + 1));
                assert(views(out@) =~= before.push(without_return(line)));
                assert(before + (seq![without_return(line)] + text_lines(s@.skip(i + 1)))
                    =~= before.push(without_return(line)) + text_lines(s@.skip(i + 1)));
            }
            start = i + 1;
        }
    }
    proof {
        assert(s@.skip(start as int) =~= Seq::empty());
        assert(views(out@) + Seq::<Seq<char>>::empty() =~= views(out@));
    }
    out
}

/// Whether a list of texts holds a text.
pub fn holds_text(list: &Vec<String>, text: &str) -> (r: bool)
    ensures
        r == views(list@).contains(text@),
{
    let mut i: usize = 0;
    while i < list.len()
        invariant
            i <= list@.len(),
            forall|j: int| 0 <= j < i ==> views(list@)[j] != text@,
        decreases list@.len() - i,
    {
        if str_eq(list[i].as_str(), text) {
            proof {
                assert(views(list@)[i as int] == text@);
            }
            return true;
        }
        i += 1;
    }
    false
}

// ---------------------------------------------------------------------------
// Laws
// ---------------------------------------------------------------------------

/// A text is split at a character exactly where it holds it: the first part is free of it, and both
/// parts with the character between them are the text again. There is one such split.
pub proof fn law_split_first(s: Seq<char>, c: char, a: Seq<char>, b: Seq<char>)
    ensures
        split_first(s, c) is None <==> !s.contains(c),
        split_first(s, c) matches Some((x, y)) ==> !x.contains(c) && x + seq![c] + y == s,
        !a.contains(c) && s == a + seq![c] + b ==> split_first(s, c) == Some((a, b)),
{
    lemma_first_index(s, c);
    if s.contains(c) {
        let i = first_index(s, c);
        assert(s.take(i) + seq![c] + s.skip(i + 1) =~= s);
        assert forall|j: int| 0 <= j < i implies s.take(i)[j] != c by {}
    }
    if !a.contains(c) && s == a + seq![c] + b {
        let n = a.len() as int;
        assert(s[n] == c);
        assert forall|j: int| 0 <= j < n implies s[j] != c by {
            assert(s[j] == a[j]);
        }
        lemma_first_index_is(s, c, n);
        assert(s.contains(c));
        assert(s.take(n) =~= a);
        assert(s.skip(n + 1) =~= b);
    }
}

/// Blanks, tabs, line ends and the other Unicode spaces are white space, and nothing else is.
pub proof fn law_white_space(c: char)
    ensures
        is_space(c) <==> '\t' <= c <= '\r' || c == ' ' || c == '\u{85}' || c == '\u{a0}' || c
            == '\u{1680}' || '\u{2000}' <= c <= '\u{200a}' || c == '\u{2028}' || c == '\u{2029}' || c
            == '\u{202f}' || c == '\u{205f}' || c == '\u{3000}',
{
}

/// Trimming takes the white space before and behind a text, and nothing of the text itself.
pub proof fn law_trimmed(before: Seq<char>, text: Seq<char>, behind: Seq<char>)
    requires
        forall|i: int| 0 <= i < before.len() ==> is_space(#[trigger] before[i]),
        forall|i: int| 0 <= i < behind.len() ==> is_space(#[trigger] behind[i]),
        text.len() > 0 ==> !is_space(text[0]) && !is_space(text.last()),
    ensures
        trimmed(before + text + behind) == text,
{
    if text.len() > 0 {
        lemma_trims_start(before, text + behind);
        assert(before + text + behind =~= before + (text + behind));
        lemma_trims_end(text, behind);
    } else {
        let all = before + behind;
        assert(before + text + behind =~= all + Seq::<char>::empty());
        assert forall|i: int| 0 <= i < all.len() implies is_space(#[trigger] all[i]) by {
            if i < before.len() {
                assert(all[i] == before[i]);
            } else {
                assert(all[i] == behind[i - before.len()]);
            }
        }
        lemma_trims_start(all, Seq::empty());
        assert(text =~= Seq::empty());
    }
}

proof fn lemma_trims_start(before: Seq<char>, rest: Seq<char>)
    requires
        forall|i: int| 0 <= i < before.len() ==> is_space(#[trigger] before[i]),
        rest.len() > 0 ==> !is_space(rest[0]),
    ensures
        trim_start_spec(before + rest) == rest,
    decreases before.len(),
{
    let s = before + rest;
    if before.len() > 0 {
        assert(s[0] == before[0]);
        let fewer = before.drop_first();
        assert(s.drop_first() =~= fewer + rest);
        assert forall|i: int| 0 <= i < fewer.len() implies is_space(#[trigger] fewer[i]) by {
            assert(fewer[i] == before[i + 1]);
        }
        lemma_trims_start(fewer, rest);
    } else {
        assert(s =~= rest);
    }
}

proof fn lemma_trims_end(rest: Seq<char>, behind: Seq<char>)
    requires
        forall|i: int| 0 <= i < behind.len() ==> is_space(#[trigger] behind[i]),
        rest.len() > 0 ==> !is_space(rest.last()),
    ensures
        trim_end_spec(rest + behind) == rest,
    decreases behind.len(),
{
    let s = rest + behind;
    if behind.len() > 0 {
        assert(s.last() == behind.last());
        let fewer = behind.drop_last();
        assert(s.drop_last() =~= rest + fewer);
        lemma_trims_end(rest, fewer);
    } else {
        assert(s =~= rest);
    }
}

/// The decimal form of a number does not begin with a zero, but for zero itself; each digit behind
/// others is worth itself and ten times what stands before it.
pub proof fn law_decimal_form(n: nat, s: Seq<char>, c: char)
    requires
        '0' <= c <= '9',
    ensures
        n > 0 ==> decimal_text(n)[0] != '0',
        n == 0 ==> decimal_text(n) == seq!['0'],
        decimal_value(Seq::empty()) == 0,
        decimal_value(s.push(c)) == 10 * decimal_value(s) + (c as int - '0' as int),
    decreases n,
{
    assert(s.push(c).drop_last() =~= s);
    if n >= 10 {
        law_decimal_form(n / 10, s, c);
        law_decimal_roundtrip(n / 10);
        assert(decimal_text(n)[0] == decimal_text(n / 10)[0]);
    }
}

/// A text writes a number exactly where it is a row of digits, with or without one plus sign before
/// it, that stands for a number in range; then it writes that number.
pub proof fn law_parsed(s: Seq<char>, digits: Seq<char>)
    requires
        digits.len() > 0,
        forall|i: int| 0 <= i < digits.len() ==> '0' <= #[trigger] digits[i] <= '9',
    ensures
        s == digits || s == seq!['+'] + digits ==> (parsed_u64(s) is Some <==> decimal_value(digits)
            <= u64::MAX) && (parsed_u64(s) matches Some(n) ==> n == decimal_value(digits)),
        s.len() == 0 ==> parsed_u64(s) is None,
        s.len() > 0 && !('0' <= s[0] <= '9') && s[0] != '+' ==> parsed_u64(s) is None,
        (exists|i: int| 1 <= i < s.len() && !('0' <= #[trigger] s[i] <= '9')) ==> parsed_u64(
            s,
        ) is None,
        s == seq!['+'] ==> parsed_u64(s) is None,
{
    assert(all_digits(digits)) by {
        assert forall|i: int| 0 <= i < digits.len() implies is_digit(#[trigger] digits[i]) by {}
    }
    if s == seq!['+'] + digits {
        assert(s[0] == '+');
        assert(s.skip(1) =~= digits);
    }
    if s == digits {
        assert(s[0] != '+');
    }
    let d = unsigned_part(s);
    if s.len() > 0 && !('0' <= s[0] <= '9') && s[0] != '+' {
        assert(!is_digit(d[0]));
    }
    if exists|i: int| 1 <= i < s.len() && !('0' <= #[trigger] s[i] <= '9') {
        let i = choose|i: int| 1 <= i < s.len() && !('0' <= #[trigger] s[i] <= '9');
        if s[0] == '+' {
            assert(d[i - 1] == s[i]);
            assert(!is_digit(d[i - 1]));
        } else {
            assert(!is_digit(d[i]));
        }
    }
}

/// Lowering the case of a text turns each capital ASCII letter into its small one and keeps every
/// other character, each in its place.
pub proof fn law_lowered(s: Seq<char>, i: int)
    requires
        0 <= i < s.len(),
    ensures
        lowered_text(s).len() == s.len(),
        'A' <= s[i] <= 'Z' ==> 'a' <= lowered_text(s)[i] <= 'z' && lowered_text(s)[i] as int
            - 'a' as int == s[i] as int - 'A' as int,
        !('A' <= s[i] <= 'Z') ==> lowered_text(s)[i] == s[i],
{
}

/// A text holds another exactly where the other stands between two parts of it.
pub proof fn law_parts(s: Seq<char>, part: Seq<char>)
    ensures
        has_part(s, part) <==> exists|a: Seq<char>, b: Seq<char>| #[trigger] (a + part + b) == s,
{
    if has_part(s, part) {
        let i = choose|i: int| #[trigger] stands_at(s, part, i);
        let (a, b) = (s.take(i), s.skip(i + part.len()));
        assert(a + part + b =~= s) by {
            assert(s.subrange(i, i + part.len()) == part);
            assert forall|k: int| 0 <= k < s.len() implies (a + part + b)[k] == s[k] by {
                if i <= k < i + part.len() {
                    assert(s.subrange(i, i + part.len())[k - i] == part[k - i]);
                }
            }
        }
    }
    if exists|a: Seq<char>, b: Seq<char>| #[trigger] (a + part + b) == s {
        let (a, b) = choose|a: Seq<char>, b: Seq<char>| #[trigger] (a + part + b) == s;
        assert(s.subrange(a.len() as int, (a.len() + part.len()) as int) =~= part);
        assert(stands_at(s, part, a.len() as int));
    }
}

/// The lines of a text are what stands before each line feed, without the carriage return right
/// before it, and what stands behind the last one, where anything does.
pub proof fn law_lines(line: Seq<char>, rest: Seq<char>)
    requires
        !line.contains('\n'),
    ensures
        ({
            let all = text_lines(line + seq!['\n'] + rest);
            let ended = line.len() > 0 && line.last() == '\r';
            &&& all.len() == text_lines(rest).len() + 1
            &&& ended ==> all[0].push('\r') == line
            &&& !ended ==> all[0] == line
            &&& forall|i: int| 0 <= i < text_lines(rest).len() ==> all[i + 1] == text_lines(rest)[i]
        }),
        line.len() == 0 ==> text_lines(line).len() == 0,
        line.len() > 0 ==> text_lines(line) == seq![line],
{
    let s = line + seq!['\n'] + rest;
    law_split_first(s, '\n', line, rest);
    law_split_first(line, '\n', line, rest);
}

} // verus!
