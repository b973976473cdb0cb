//! Decimal formatting and joining of text, specified over `Seq<char>`.

use vstd::prelude::*;

verus! {

/// The ASCII character of a decimal digit.
pub open spec fn digit_char(d: int) -> char {
    if d == 0 {
        '0'
    } else if d == 1 {
        '1'
    } else if d == 2 {
        '2'
    } else if d == 3 {
        '3'
    } else if d == 4 {
        '4'
    } else if d == 5 {
        '5'
    } else if d == 6 {
        '6'
    } else if d == 7 {
        '7'
    } else if d == 8 {
        '8'
    } else {
        '9'
    }
}

/// Decimal representation of a natural number, without leading zeros.
pub open spec fn nat_decimal(n: nat) -> Seq<char>
    decreases n,
{
    if n < 10 {
        seq![digit_char(n as int)]
    } else {
        nat_decimal(n / 10).push(digit_char((n % 10) as int))
    }
}

/// Decimal representation of an integer, as Rust's `Display` prints it.
pub open spec fn int_decimal(i: int) -> Seq<char> {
    if i < 0 {
        seq!['-'] + nat_decimal((-i) as nat)
    } else {
        nat_decimal(i as nat)
    }
}

/// How `Display` prints an `f32` that holds the value `halves / 2`:
/// whole values without a fraction, others with `.5`.
pub open spec fn half_decimal(halves: int) -> Seq<char> {
    if halves % 2 == 0 {
        int_decimal(halves / 2)
    } else if halves < 0 {
        seq!['-'] + nat_decimal(((-halves) / 2) as nat) + seq!['.', '5']
    } else {
        nat_decimal((halves / 2) as nat) + seq!['.', '5']
    }
}

/// The parts, with `sep` between each two neighbours.
pub open spec fn seq_join(parts: Seq<Seq<char>>, sep: Seq<char>) -> Seq<char>
    decreases parts.len(),
{
    if parts.len() == 0 {
        Seq::empty()
    } else if parts.len() == 1 {
        parts[0]
    } else {
        seq_join(parts.drop_last(), sep) + sep + parts.last()
    }
}

/// The views of a vector of strings.
pub open spec fn strings_view(v: Seq<String>) -> Seq<Seq<char>> {
    v.map_values(|s: String| s@)
}

fn digit_str(d: u64) -> (s: &'static str)
    requires
        d < 10,
    ensures
        s@ == seq![digit_char(d as int)],
{
    if d == 0 {
        proof { reveal_strlit("0"); }
        "0"
    } else if d == 1 {
        proof { reveal_strlit("1"); }
        "1"
    } else if d == 2 {
        proof { reveal_strlit("2"); }
        "2"
    } else if d == 3 {
        proof { reveal_strlit("3"); }
        "3"
    } else if d == 4 {
        proof { reveal_strlit("4"); }
        "4"
    } else if d == 5 {
        proof { reveal_strlit("5"); }
        "5"
    } else if d == 6 {
        proof { reveal_strlit("6"); }
        "6"
    } else if d == 7 {
        proof { reveal_strlit("7"); }
        "7"
    } else if d == 8 {
        proof { reveal_strlit("8"); }
        "8"
    } else {
        proof { reveal_strlit("9"); }
        "9"
    }
}

/// Decimal text of an unsigned number.
pub fn format_u64(n: u64) -> (s: String)
    ensures
        s@ == nat_decimal(n as nat),
    decreases n,
{
    if n < 10 {
        String::from_str(digit_str(n))
    } else {
        let mut s = format_u64(n / 10);
        s.append(digit_str(n % 10));
        s
    }
}

/// Decimal text of a signed number.
pub fn format_i64(i: i64) -> (s: String)
    ensures
        s@ == int_decimal(i as int),
{
    if i < 0 {
        let magnitude: u64 = if i == i64::MIN {
            9223372036854775808u64
        } else {
            (-i) as u64
        };
        let mut s = String::from_str("-");
        proof { reveal_strlit("-"); }
        let digits = format_u64(magnitude);
        s.append(digits.as_str());
        s
    } else {
        format_u64(i as u64)
    }
}

/// Text of the value `halves / 2` as `Display` prints it for an `f32`.
pub fn format_halves(halves: i64) -> (s: String)
    ensures
        s@ == half_decimal(halves as int),
{
    if halves % 2 == 0 {
        format_i64(halves / 2)
    } else if halves < 0 {
        let magnitude: u64 = if halves == i64::MIN {
            4611686018427387904u64
        } else {
            ((-halves) / 2) as u64
        };
        let mut s = String::from_str("-");
        let digits = format_u64(magnitude);
        s.append(digits.as_str());
        s.append(".5");
        proof {
            reveal_strlit("-");
            reveal_strlit(".5");
        }
        s
    } else {
        let mut s = format_u64((halves / 2) as u64);
        s.append(".5");
        proof { reveal_strlit(".5"); }
        s
    }
}

/// The strings, with `sep` between each two neighbours.
pub fn join_strings(parts: &Vec<String>, sep: &str) -> (s: String)
    ensures
        s@ == seq_join(strings_view(parts@), sep@),
{
    let ghost views = strings_view(parts@);
    let mut s = String::new();
    let mut i: usize = 0;
    while i < parts.len()
        invariant
            i <= parts.len(),
            views == strings_view(parts@),
            s@ == seq_join(views.take(i as int), sep@),
        decreases parts.len() - i,
    {
        if i != 0 {
            s.append(sep);
        }
        s.append(parts[i].as_str());
        proof {
            assert(views.take(i + 1).drop_last() =~= views.take(i as int));
            assert(views.take(i + 1).last() == parts@[i as int]@);
            if i == 0 {
                assert(views.take(0) =~= Seq::<Seq<char>>::empty());
            }
        }
        i = i + 1;
    }
    proof {
        assert(views.take(parts.len() as int) =~= views);
    }
    s
}

/// Whether `needle` occurs in `hay` starting at `i`.
pub open spec fn occurs_at(hay: Seq<char>, needle: Seq<char>, i: int) -> bool {
    0 <= i && i + needle.len() <= hay.len() && hay.subrange(i, i + needle.len()) == needle
}

/// The first position at or after `from` where `needle` occurs in `hay`;
/// `hay.len()` when there is none.
pub open spec fn first_occurrence(hay: Seq<char>, needle: Seq<char>, from: nat) -> nat
    decreases hay.len() - from,
{
    if from + needle.len() > hay.len() {
        hay.len()
    } else if occurs_at(hay, needle, from as int) {
        from
    } else {
        proof {
            if needle.len() == 0 {
                assert(hay.subrange(from as int, from as int) =~= needle);
            }
        }
        first_occurrence(hay, needle, from + 1)
    }
}

/// Whether `needle` occurs in `hay` at or after `from`.
pub open spec fn occurs_from(hay: Seq<char>, needle: Seq<char>, from: nat) -> bool {
    first_occurrence(hay, needle, from) + needle.len() <= hay.len()
}

/// The first occurrence lies at or after `from`, and is an occurrence.
pub proof fn lemma_first_occurrence(hay: Seq<char>, needle: Seq<char>, from: nat)
    requires
        from <= hay.len(),
    ensures
        from <= first_occurrence(hay, needle, from) <= hay.len(),
        occurs_from(hay, needle, from) ==> occurs_at(hay, needle, first_occurrence(hay, needle, from) as int),
    decreases hay.len() - from,
{
    if from + needle.len() <= hay.len() && !occurs_at(hay, needle, from as int) {
        if needle.len() == 0 {
            assert(hay.subrange(from as int, from as int) =~= needle);
        }
        lemma_first_occurrence(hay, needle, from + 1);
    }
}

/// The characters of a text.
pub fn chars_of(s: &str) -> (r: Vec<char>)
    ensures
        r@ == s@,
{
    broadcast use vstd::string::axiom_spec_iter;

    let mut v: Vec<char> = Vec::new();
    for c in it: s.chars()
        invariant
            it.seq() == s@,
            v@ == it.seq().take(it.index() as int),
    {
        v.push(c);
        proof {
            assert(it.seq().take(it.index() + 1) == it.seq().take(it.index() as int).push(c));
        }
    }
    proof {
        assert(s@.take(s@.len() as int) == s@);
    }
    v
}

fn matches_at(hay: &Vec<char>, needle: &Vec<char>, i: usize) -> (r: bool)
    requires
        i + needle@.len() <= hay@.len(),
    ensures
        r == occurs_at(hay@, needle@, i as int),
{
    let hay_len = hay.len();
    let mut k: usize = 0;
    while k < needle.len()
        invariant
            k <= needle@.len(),
            hay_len == hay@.len(),
            i + needle@.len() <= hay@.len(),
            forall|j: int| 0 <= j < k ==> hay@[i + j] == needle@[j],
        decreases needle@.len() - k,
    {
        if hay[i + k] != needle[k] {
            proof {
                assert(hay@.subrange(i as int, i + needle@.len())[k as int] != needle@[k as int]);
            }
            return false;
        }
        k += 1;
    }
    proof {
        assert(hay@.subrange(i as int, i + needle@.len()) =~= needle@);
    }
    true
}

/// The first position at or after `from` where `needle` occurs in `hay`.
pub fn find_from(hay: &Vec<char>, needle: &Vec<char>, from: usize) -> (r: Option<usize>)
    requires
        from <= hay@.len(),
    ensures
        r is Some <==> occurs_from(hay@, needle@, from as nat),
        r matches Some(i) ==> i == first_occurrence(hay@, needle@, from as nat),
{
    let mut i: usize = from;
    while i <= hay.len() && needle.len() <= hay.len() - i
        invariant
            from <= i <= hay@.len(),
            first_occurrence(hay@, needle@, from as nat) == first_occurrence(hay@, needle@, i as nat),
        decreases hay@.len() - i,
    {
        if matches_at(hay, needle, i) {
            return Some(i);
        }
        proof {
            if needle@.len() == 0 {
                assert(hay@.subrange(i as int, i as int) =~= needle@);
            }
            assert(first_occurrence(hay@, needle@, i as nat) == first_occurrence(hay@, needle@, (i + 1) as nat));
        }
        i += 1;
    }
    proof {
        assert(first_occurrence(hay@, needle@, i as nat) == hay@.len());
    }
    None
}

/// Whether `char::is_whitespace` holds: the Unicode `White_Space` property.
pub open spec fn is_white_space(c: char) -> bool {
    ||| c == '\t' || c == '\n' || c == '\u{b}' || c == '\u{c}' || c == '\r' || c == ' '
    ||| c == '\u{85}' || c == '\u{a0}' || c == '\u{1680}'
    ||| ('\u{2000}' <= c && c <= '\u{200a}')
    ||| c == '\u{2028}' || c == '\u{2029}' || c == '\u{202f}' || c == '\u{205f}' || c == '\u{3000}'
}

fn is_white_space_char(c: char) -> (r: bool)
    ensures
        r == is_white_space(c),
{
    c == '\t' || c == '\n' || c == '\u{b}' || c == '\u{c}' || c == '\r' || c == ' ' || c == '\u{85}'
        || c == '\u{a0}' || c == '\u{1680}' || ('\u{2000}' <= c && c <= '\u{200a}') || c == '\u{2028}'
        || c == '\u{2029}' || c == '\u{202f}' || c == '\u{205f}' || c == '\u{3000}'
}

/// Position of the first character at or after `i` that is not white space.
pub open spec fn trim_start_at(s: Seq<char>, i: nat) -> nat
    decreases s.len() - i,
{
    if i >= s.len() {
        s.len()
    } else if is_white_space(s[i as int]) {
        trim_start_at(s, i + 1)
    } else {
        i
    }
}

/// End of the text before `j` without its trailing white space.
pub open spec fn trim_end_at(s: Seq<char>, j: nat) -> nat
    decreases j,
{
    if j == 0 || j > s.len() {
        0
    } else if is_white_space(s[j - 1]) {
        trim_end_at(s, (j - 1) as nat)
    } else {
        j
    }
}

/// The text without leading and trailing white space.
pub open spec fn trimmed(s: Seq<char>) -> Seq<char> {
    let a = trim_start_at(s, 0);
    let e = trim_end_at(s, s.len());
    if a < e { s.subrange(a as int, e as int) } else { Seq::empty() }
}

/// The text without leading and trailing white space, as `str::trim`.
pub fn trim_text(s: &str) -> (r: String)
    ensures
        r@ == trimmed(s@),
{
    let chars = chars_of(s);
    let mut a: usize = 0;
    while a < chars.len() && is_white_space_char(chars[a])
        invariant
            a <= chars@.len(),
            chars@ == s@,
            trim_start_at(s@, 0) == trim_start_at(s@, a as nat),
        decreases chars@.len() - a,
    {
        a += 1;
    }
    let mut e: usize = chars.len();
    while e > 0 && is_white_space_char(chars[e - 1])
        invariant
            e <= chars@.len(),
            chars@ == s@,
            trim_end_at(s@, s@.len()) == trim_end_at(s@, e as nat),
        decreases e,
    {
        e -= 1;
    }
    proof {
        assert(trim_start_at(s@, a as nat) == a);
        assert(trim_end_at(s@, e as nat) == e);
    }
    if a < e {
        String::from_str(s.substring_char(a, e))
    } else {
        String::new()
    }
}

} // verus!
