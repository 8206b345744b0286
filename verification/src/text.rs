//! Character-level helpers: splitting, decimal numbers, joining, searching.
use vstd::prelude::*;
use vstd::utf8::{
    encode_scalar, encode_utf8, encode_utf8_first_scalar, encode_utf8_valid_utf8, is_char_boundary,
    length_of_first_scalar, pop_first_scalar,
};

verus! {

/// The characters of `s`, in order.
pub fn chars_of(s: &str) -> (v: Vec<char>)
    ensures
        v@ == s@,
{
    let mut v: Vec<char> = Vec::new();
    for c in it: s.chars()
        invariant
            it.seq() == s@,
            v@ == s@.take(it.index() as int),
    {
        v.push(c);
    }
    assert(v@ == s@.take(s@.len() as int));
    v
}

/// Appends `c` to `s` with `String::push`, which adds the character at the end.
#[verifier::external_body]
fn push_char(s: &mut String, c: char)
    ensures
        final(s)@ == old(s)@.push(c),
{
    s.push(c)
}

/// A string holding the characters of `v`, in order.
pub fn string_from_chars(v: &[char]) -> (s: String)
    ensures
        s@ == v@,
{
    let mut s = String::new();
    for i in 0..v.len()
        invariant
            s@ == v@.take(i as int),
    {
        push_char(&mut s, v[i]);
        assert(v@.take(i + 1) =~= v@.take(i as int).push(v@[i as int]));
    }
    assert(v@.take(v@.len() as int) =~= v@);
    s
}

/// Whether `c` is one of `set`.
pub fn contains_char(set: &[char], c: char) -> (b: bool)
    ensures
        b == set@.contains(c),
{
    for i in 0..set.len()
        invariant
            forall|j: int| 0 <= j < i ==> set@[j] != c,
    {
        if set[i] == c {
            return true;
        }
    }
    false
}

// ---------------------------------------------------------------------------
// Splitting

/// The pieces that `str::split` yields when its pattern matches any of the
/// characters in `seps`: the maximal runs between separators, empty ones
/// included, so that there is always one piece more than there are
/// separators.
pub open spec fn split_by(s: Seq<char>, seps: Seq<char>) -> Seq<Seq<char>>
    decreases s.len(),
{
    if s.len() == 0 {
        seq![Seq::<char>::empty()]
    } else {
        let pieces = split_by(s.drop_last(), seps);
        if seps.contains(s.last()) {
            pieces.push(Seq::<char>::empty())
        } else {
            pieces.update(pieces.len() - 1, pieces.last().push(s.last()))
        }
    }
}

pub proof fn lemma_split_by_nonempty(s: Seq<char>, seps: Seq<char>)
    ensures
        split_by(s, seps).len() >= 1,
    decreases s.len(),
{
    if s.len() > 0 {
        lemma_split_by_nonempty(s.drop_last(), seps);
    }
}

/// How many characters of `s` are among `seps`.
pub open spec fn count_in(s: Seq<char>, seps: Seq<char>) -> nat
    decreases s.len(),
{
    if s.len() == 0 {
        0
    } else {
        count_in(s.drop_last(), seps) + if seps.contains(s.last()) {
            1nat
        } else {
            0nat
        }
    }
}

/// A split has one piece more than there are separators.
pub proof fn lemma_split_by_len(s: Seq<char>, seps: Seq<char>)
    ensures
        split_by(s, seps).len() == count_in(s, seps) + 1,
    decreases s.len(),
{
    if s.len() > 0 {
        lemma_split_by_len(s.drop_last(), seps);
    }
}

/// A string without separators is a single piece.
pub proof fn lemma_split_by_no_sep(s: Seq<char>, seps: Seq<char>)
    requires
        forall|i: int| 0 <= i < s.len() ==> !seps.contains(#[trigger] s[i]),
    ensures
        split_by(s, seps) == seq![s],
    decreases s.len(),
{
    if s.len() == 0 {
        assert(s =~= Seq::<char>::empty());
        assert(split_by(s, seps) =~= seq![s]);
    } else {
        let init = s.drop_last();
        assert forall|i: int| 0 <= i < init.len() implies !seps.contains(#[trigger] init[i]) by {
            assert(init[i] == s[i]);
        }
        lemma_split_by_no_sep(init, seps);
        assert(!seps.contains(s.last()));
        assert(init.push(s.last()) =~= s);
        let q = split_by(init, seps);
        assert(q == seq![init]);
        assert(q.len() - 1 == 0);
        assert(split_by(s, seps) == q.update(0, q.last().push(s.last())));
        assert(q.update(0, q.last().push(s.last())) =~= seq![s]);
    }
}

/// Splitting two strings one after the other: the last piece of the first
/// and the first piece of the second run together.
pub proof fn lemma_split_by_concat(a: Seq<char>, b: Seq<char>, seps: Seq<char>)
    ensures
        split_by(a + b, seps) == split_by(a, seps).drop_last() + seq![
            split_by(a, seps).last() + split_by(b, seps)[0],
        ] + split_by(b, seps).drop_first(),
    decreases b.len(),
{
    let sa = split_by(a, seps);
    lemma_split_by_nonempty(a, seps);
    if b.len() == 0 {
        assert(a + b =~= a);
        assert(sa.last() + Seq::<char>::empty() =~= sa.last());
        assert(sa.drop_last() + seq![sa.last()] =~= sa);
        assert(split_by(b, seps).drop_first() =~= Seq::<Seq<char>>::empty());
        assert(sa.drop_last() + seq![sa.last() + split_by(b, seps)[0]] + split_by(
            b,
            seps,
        ).drop_first() =~= sa);
    } else {
        let init = b.drop_last();
        let c = b.last();
        lemma_split_by_concat(a, init, seps);
        lemma_split_by_nonempty(init, seps);
        assert((a + b).drop_last() =~= a + init);
        assert((a + b).last() == c);
        let q = split_by(init, seps);
        let p = split_by(a + init, seps);
        if seps.contains(c) {
            assert(split_by(b, seps) == q.push(Seq::<char>::empty()));
            assert(split_by(b, seps)[0] == q[0]);
            assert(split_by(b, seps).drop_first() =~= q.drop_first().push(Seq::<char>::empty()));
            assert(split_by(a + b, seps) =~= sa.drop_last() + seq![sa.last() + split_by(b, seps)[0]]
                + split_by(b, seps).drop_first());
        } else {
            assert(split_by(b, seps) == q.update(q.len() - 1, q.last().push(c)));
            if q.len() == 1 {
                assert((sa.last() + q[0]).push(c) =~= sa.last() + q[0].push(c));
                assert(split_by(a + b, seps) =~= sa.drop_last() + seq![
                    sa.last() + split_by(b, seps)[0],
                ] + split_by(b, seps).drop_first());
            } else {
                assert(split_by(b, seps).drop_first() =~= q.drop_first().update(
                    q.len() - 2,
                    q.last().push(c),
                ));
                assert(split_by(a + b, seps) =~= sa.drop_last() + seq![
                    sa.last() + split_by(b, seps)[0],
                ] + split_by(b, seps).drop_first());
            }
        }
    }
}

pub open spec fn chars_view(v: Seq<Vec<char>>) -> Seq<Seq<char>> {
    v.map_values(|p: Vec<char>| p@)
}

/// Splits `s` at every character that is one of `seps`.
pub fn split_by_any(s: &[char], seps: &[char]) -> (pieces: Vec<Vec<char>>)
    ensures
        chars_view(pieces@) == split_by(s@, seps@),
{
    let mut done: Vec<Vec<char>> = Vec::new();
    let mut cur: Vec<char> = Vec::new();
    assert(s@.take(0) =~= Seq::<char>::empty());
    assert(chars_view(done@).push(cur@) =~= split_by(s@.take(0), seps@));
    for i in 0..s.len()
        invariant
            chars_view(done@).push(cur@) == split_by(s@.take(i as int), seps@),
    {
        let c = s[i];
        let ghost before = s@.take(i as int);
        assert(s@.take(i + 1).drop_last() =~= before);
        assert(s@.take(i + 1).last() == c);
        proof {
            lemma_split_by_nonempty(before, seps@);
        }
        if contains_char(seps, c) {
            done.push(cur);
            cur = Vec::new();
            assert(chars_view(done@).push(cur@) =~= split_by(before, seps@).push(Seq::empty()));
        } else {
            let ghost old_cur = cur@;
            cur.push(c);
            assert(chars_view(done@).push(cur@) =~= split_by(before, seps@).update(
                split_by(before, seps@).len() - 1,
                old_cur.push(c),
            ));
        }
    }
    done.push(cur);
    assert(s@.take(s@.len() as int) =~= s@);
    done
}

// ---------------------------------------------------------------------------
// Decimal numbers

/// The value of an ASCII decimal digit.
pub open spec fn digit_value(c: char) -> Option<nat> {
    match c {
        '0' => Some(0),
        '1' => Some(1),
        '2' => Some(2),
        '3' => Some(3),
        '4' => Some(4),
        '5' => Some(5),
        '6' => Some(6),
        '7' => Some(7),
        '8' => Some(8),
        '9' => Some(9),
        _ => None,
    }
}

/// The ASCII decimal digit of a value below ten.
pub open spec fn digit_char(d: nat) -> char {
    if d == 0 {
        '0'
    } else if d == 1 {
        '1'
    } else if d == 2 {
        '2'
    } else if d == 3 {
        '3'
    } else if d == 4 {
        '4'
    } else if d == 5 {
        '5'
    } else if d == 6 {
        '6'
    } else if d == 7 {
        '7'
    } else if d == 8 {
        '8'
    } else {
        '9'
    }
}

pub open spec fn all_digits(s: Seq<char>) -> bool {
    forall|i: int| 0 <= i < s.len() ==> (#[trigger] digit_value(s[i])) is Some
}

/// The number that a string of decimal digits denotes, most significant first.
pub open spec fn decimal_value(s: Seq<char>) -> nat
    decreases s.len(),
{
    if s.len() == 0 {
        0
    } else {
        10 * decimal_value(s.drop_last()) + match digit_value(s.last()) {
            Some(d) => d,
            None => 0,
        }
    }
}

/// What `str::parse::<u32>` accepts and returns: an optional `+` followed by
/// at least one ASCII digit, denoting a value that fits in a `u32`.
pub open spec fn parse_u32_spec(s: Seq<char>) -> Option<u32> {
    let d = if s.len() > 0 && s[0] == '+' {
        s.drop_first()
    } else {
        s
    };
    if d.len() > 0 && all_digits(d) && decimal_value(d) <= u32::MAX {
        Some(decimal_value(d) as u32)
    } else {
        None
    }
}

/// What `str::parse::<i32>` accepts and returns: an optional `+` or `-`
/// followed by at least one ASCII digit, denoting a value that fits in an
/// `i32`.
pub open spec fn parse_i32_spec(s: Seq<char>) -> Option<i32> {
    let negative = s.len() > 0 && s[0] == '-';
    let d = if s.len() > 0 && (s[0] == '+' || s[0] == '-') {
        s.drop_first()
    } else {
        s
    };
    if d.len() > 0 && all_digits(d) {
        if negative {
            if decimal_value(d) <= 0x8000_0000 {
                Some((0 - decimal_value(d)) as i32)
            } else {
                None
            }
        } else if decimal_value(d) <= i32::MAX {
            Some(decimal_value(d) as i32)
        } else {
            None
        }
    } else {
        None
    }
}

/// The decimal representation of `n`, without leading zeros.
pub open spec fn decimal_chars(n: nat) -> Seq<char>
    decreases n,
{
    if n < 10 {
        seq![digit_char(n)]
    } else {
        decimal_chars(n / 10).push(digit_char(n % 10))
    }
}

/// The decimal representation of `n` as `i32`'s `Display` writes it.
pub open spec fn i32_chars(n: i32) -> Seq<char> {
    if n < 0 {
        seq!['-'] + decimal_chars((0 - n) as nat)
    } else {
        decimal_chars(n as nat)
    }
}

pub proof fn lemma_decimal_prefix_le(s: Seq<char>, k: int)
    requires
        0 <= k <= s.len(),
    ensures
        decimal_value(s.take(k)) <= decimal_value(s),
    decreases s.len(),
{
    if k == s.len() {
        assert(s.take(k) =~= s);
    } else {
        lemma_decimal_prefix_le(s.drop_last(), k);
        assert(s.drop_last().take(k) =~= s.take(k));
    }
}

pub proof fn lemma_digit_char(d: nat)
    requires
        d < 10,
    ensures
        digit_value(digit_char(d)) == Some(d),
{
}

pub proof fn lemma_decimal_chars(n: nat)
    ensures
        decimal_chars(n).len() >= 1,
        all_digits(decimal_chars(n)),
        decimal_value(decimal_chars(n)) == n,
    decreases n,
{
    lemma_digit_char(n % 10);
    if n < 10 {
        let s = decimal_chars(n);
        assert(s.drop_last() =~= Seq::<char>::empty());
        assert(s.last() == digit_char(n));
        assert(n % 10 == n);
        assert(decimal_value(s) == 10 * decimal_value(s.drop_last()) + n);
    } else {
        lemma_decimal_chars(n / 10);
        let s = decimal_chars(n);
        assert(s.drop_last() =~= decimal_chars(n / 10));
        assert(s.last() == digit_char(n % 10));
        assert(decimal_value(s) == 10 * (n / 10) + n % 10);
        assert forall|i: int| 0 <= i < s.len() implies (#[trigger] digit_value(s[i])) is Some by {
            if i < s.len() - 1 {
                assert(s[i] == decimal_chars(n / 10)[i]);
            }
        }
    }
}

/// The value of the ASCII digit `c`, if it is one.
pub fn digit_of(c: char) -> (r: Option<u32>)
    ensures
        r matches Some(d) ==> digit_value(c) == Some(d as nat) && d < 10,
        r is None ==> digit_value(c) is None,
{
    match c {
        '0' => Some(0),
        '1' => Some(1),
        '2' => Some(2),
        '3' => Some(3),
        '4' => Some(4),
        '5' => Some(5),
        '6' => Some(6),
        '7' => Some(7),
        '8' => Some(8),
        '9' => Some(9),
        _ => None,
    }
}

/// The value of the digits `s[start..]`, when they are a nonempty run of
/// ASCII digits whose value is at most `limit`.
fn bounded_decimal(s: &[char], start: usize, limit: u64) -> (r: Option<u64>)
    requires
        start <= s@.len(),
        limit <= 0x1_0000_0000,
    ensures
        ({
            let d = s@.subrange(start as int, s@.len() as int);
            r == if d.len() > 0 && all_digits(d) && decimal_value(d) <= limit {
                Some(decimal_value(d) as u64)
            } else {
                None::<u64>
            }
        }),
{
    let ghost d = s@.subrange(start as int, s@.len() as int);
    if start == s.len() {
        return None;
    }
    let mut v: u64 = 0;
    let mut i = start;
    assert(s@.subrange(start as int, start as int) =~= Seq::<char>::empty());
    while i < s.len()
        invariant
            start <= i <= s@.len(),
            d == s@.subrange(start as int, s@.len() as int),
            limit <= 0x1_0000_0000,
            v == decimal_value(s@.subrange(start as int, i as int)),
            v <= limit,
            all_digits(s@.subrange(start as int, i as int)),
        decreases s@.len() - i,
    {
        let c = s[i];
        assert(d[i - start] == c);
        match digit_of(c) {
            None => {
                return None;
            },
            Some(dg) => {
                let ghost prefix = s@.subrange(start as int, i + 1);
                assert(prefix.drop_last() =~= s@.subrange(start as int, i as int));
                assert(prefix =~= d.take(i + 1 - start));
                v = v * 10 + dg as u64;
                assert(v == decimal_value(prefix));
                if v > limit {
                    proof {
                        lemma_decimal_prefix_le(d, i + 1 - start);
                    }
                    return None;
                }
                i = i + 1;
                assert forall|j: int| 0 <= j < prefix.len() implies (#[trigger] digit_value(
                    prefix[j],
                )) is Some by {
                    if j < prefix.len() - 1 {
                        assert(prefix[j] == s@.subrange(start as int, i - 1)[j]);
                    }
                }
            },
        }
    }
    Some(v)
}

/// `str::parse::<u32>` on the characters `s`.
pub fn parse_u32(s: &[char]) -> (r: Option<u32>)
    ensures
        r == parse_u32_spec(s@),
{
    let start: usize = if s.len() > 0 && s[0] == '+' {
        1
    } else {
        0
    };
    assert(s@.subrange(start as int, s@.len() as int) =~= if s@.len() > 0 && s@[0] == '+' {
        s@.drop_first()
    } else {
        s@
    });
    match bounded_decimal(s, start, 0xffff_ffff) {
        Some(v) => Some(v as u32),
        None => None,
    }
}

/// `str::parse::<i32>` on the characters `s`.
pub fn parse_i32(s: &[char]) -> (r: Option<i32>)
    ensures
        r == parse_i32_spec(s@),
{
    let signed = s.len() > 0 && (s[0] == '+' || s[0] == '-');
    let negative = s.len() > 0 && s[0] == '-';
    let start: usize = if signed {
        1
    } else {
        0
    };
    assert(s@.subrange(start as int, s@.len() as int) =~= if s@.len() > 0 && (s@[0] == '+'
        || s@[0] == '-') {
        s@.drop_first()
    } else {
        s@
    });
    if negative {
        match bounded_decimal(s, start, 0x8000_0000) {
            Some(v) => Some((0 - v as i64) as i32),
            None => None,
        }
    } else {
        match bounded_decimal(s, start, 0x7fff_ffff) {
            Some(v) => Some(v as i32),
            None => None,
        }
    }
}

/// The ASCII digit of a value below ten.
fn digit_char_of(d: u32) -> (c: char)
    requires
        d < 10,
    ensures
        c == digit_char(d as nat),
{
    if d == 0 {
        '0'
    } else if d == 1 {
        '1'
    } else if d == 2 {
        '2'
    } else if d == 3 {
        '3'
    } else if d == 4 {
        '4'
    } else if d == 5 {
        '5'
    } else if d == 6 {
        '6'
    } else if d == 7 {
        '7'
    } else if d == 8 {
        '8'
    } else {
        '9'
    }
}

/// Appends the decimal representation of `n` to `s`.
pub fn push_decimal(s: &mut String, n: u32)
    ensures
        final(s)@ == old(s)@ + decimal_chars(n as nat),
    decreases n,
{
    if n >= 10 {
        push_decimal(s, n / 10);
    }
    push_char(s, digit_char_of(n % 10));
    if n >= 10 {
        assert(decimal_chars(n as nat) == decimal_chars((n / 10) as nat).push(digit_char((n % 10) as nat)));
    } else {
        assert(decimal_chars(n as nat) =~= seq![digit_char(n as nat)]);
    }
}

/// Appends the decimal representation of `n`, with a `-` before it when it
/// is negative, to `s`.
pub fn push_i32(s: &mut String, n: i32)
    ensures
        final(s)@ == old(s)@ + i32_chars(n),
{
    if n < 0 {
        push_char(s, '-');
        let m = (0 - n as i64) as u32;
        push_decimal(s, m);
        assert(final(s)@ =~= old(s)@ + i32_chars(n));
    } else {
        push_decimal(s, n as u32);
    }
}

/// Reading back what `push_i32` writes gives the number again.
pub proof fn i32_text_round_trip(n: i32)
    ensures
        parse_i32_spec(i32_chars(n)) == Some(n),
{
    let s = i32_chars(n);
    if n < 0 {
        let m = (0 - n) as nat;
        lemma_decimal_chars(m);
        assert(s.drop_first() =~= decimal_chars(m));
    } else {
        lemma_decimal_chars(n as nat);
        assert(digit_value(s[0]) is Some);
    }
}

// ---------------------------------------------------------------------------
// Joining and searching

/// The pieces separated by `sep`, as `[String]::join` concatenates them.
pub open spec fn join_with(pieces: Seq<Seq<char>>, sep: Seq<char>) -> Seq<char>
    decreases pieces.len(),
{
    if pieces.len() == 0 {
        Seq::empty()
    } else if pieces.len() == 1 {
        pieces[0]
    } else {
        join_with(pieces.drop_last(), sep) + sep + pieces.last()
    }
}

pub open spec fn strings_view(v: Seq<String>) -> Seq<Seq<char>> {
    v.map_values(|s: String| s@)
}

/// The strings of `pieces`, with `sep` between each two of them.
pub fn join_strings(pieces: &Vec<String>, sep: &str) -> (r: String)
    ensures
        r@ == join_with(strings_view(pieces@), sep@),
{
    let mut r = String::new();
    let ghost all = strings_view(pieces@);
    assert(all.take(0) =~= Seq::<Seq<char>>::empty());
    for i in 0..pieces.len()
        invariant
            all == strings_view(pieces@),
            r@ == join_with(all.take(i as int), sep@),
    {
        assert(all.take(i + 1).drop_last() =~= all.take(i as int));
        if i != 0 {
            r.append(sep);
        } else {
            assert(r@ =~= Seq::<char>::empty());
        }
        r.append(pieces[i].as_str());
        assert(r@ =~= join_with(all.take(i + 1), sep@));
    }
    assert(all.take(pieces@.len() as int) =~= all);
    r
}

/// `needle` occurs in `hay` starting at index `i`.
pub open spec fn occurs_at<T>(hay: Seq<T>, needle: Seq<T>, i: int) -> bool {
    0 <= i && i + needle.len() <= hay.len() && hay.subrange(i, i + needle.len()) == needle
}

/// `needle` occurs somewhere in `hay`, as `str::contains` searches the bytes
/// of a string for those of a pattern.
pub open spec fn contains_subseq<T>(hay: Seq<T>, needle: Seq<T>) -> bool {
    exists|i: int| occurs_at(hay, needle, i)
}

/// Whether `needle` occurs in `hay`.
pub fn bytes_contain(hay: &[u8], needle: &[u8]) -> (b: bool)
    ensures
        b == contains_subseq(hay@, needle@),
{
    if needle.len() > hay.len() {
        return false;
    }
    let n = hay.len();
    let last = n - needle.len();
    let mut i: usize = 0;
    while i <= last
        invariant
            n == hay@.len(),
            last == hay@.len() - needle@.len(),
            i <= last + 1,
            forall|k: int| 0 <= k < i ==> !occurs_at(hay@, needle@, k),
        decreases last + 1 - i,
    {
        let mut j: usize = 0;
        while j < needle.len()
            invariant
                n == hay@.len(),
                i <= last,
                i + needle@.len() <= hay@.len(),
                j <= needle@.len(),
                forall|m: int| 0 <= m < j ==> hay@[i + m] == needle@[m],
            ensures
                j <= needle@.len(),
                forall|m: int| 0 <= m < j ==> hay@[i + m] == needle@[m],
                j < needle@.len() ==> hay@[i + j] != needle@[j as int],
            decreases needle@.len() - j,
        {
            if hay[i + j] != needle[j] {
                break;
            }
            j = j + 1;
        }
        if j == needle.len() {
            assert(hay@.subrange(i as int, i + needle@.len()) =~= needle@);
            assert(occurs_at(hay@, needle@, i as int));
            return true;
        }
        assert(hay@.subrange(i as int, i + needle@.len())[j as int] != needle@[j as int]);
        i = i + 1;
    }
    false
}

// ---------------------------------------------------------------------------
// UTF-8

/// The encoding of two strings one after the other is the two encodings one
/// after the other.
pub proof fn lemma_encode_utf8_concat(a: Seq<char>, b: Seq<char>)
    ensures
        encode_utf8(a + b) == encode_utf8(a) + encode_utf8(b),
    decreases a.len(),
{
    if a.len() == 0 {
        assert(a + b =~= b);
        assert(encode_utf8(a) =~= Seq::<u8>::empty());
        assert(encode_utf8(a) + encode_utf8(b) =~= encode_utf8(b));
    } else {
        assert((a + b).drop_first() =~= a.drop_first() + b);
        assert((a + b)[0] == a[0]);
        lemma_encode_utf8_concat(a.drop_first(), b);
        assert(encode_utf8(a + b) =~= encode_scalar(a[0] as u32) + (encode_utf8(a.drop_first())
            + encode_utf8(b)));
    }
}

/// The end of the encoding of `a` is a character boundary of the encoding of
/// `a` followed by `b`.
pub proof fn lemma_encode_utf8_boundary(a: Seq<char>, b: Seq<char>)
    ensures
        is_char_boundary(encode_utf8(a + b), encode_utf8(a).len() as int),
    decreases a.len(),
{
    broadcast use encode_utf8_valid_utf8;

    lemma_encode_utf8_concat(a, b);
    if a.len() > 0 {
        let bytes = encode_utf8(a + b);
        assert((a + b).drop_first() =~= a.drop_first() + b);
        assert((a + b)[0] == a[0]);
        encode_utf8_first_scalar(a + b);
        lemma_encode_utf8_concat(a.drop_first(), b);
        let first = length_of_first_scalar(bytes);
        assert(first == encode_scalar(a[0] as u32).len());
        assert(pop_first_scalar(bytes) =~= encode_utf8(a.drop_first() + b));
        lemma_encode_utf8_boundary(a.drop_first(), b);
        assert(encode_utf8(a).len() == first + encode_utf8(a.drop_first()).len());
    }
}

} // verus!
