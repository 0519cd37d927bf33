//! Text helpers: decimal formatting and parsing, character sequences.
use vstd::prelude::*;
use vstd::string::*;

verus! {

/// The character of a decimal digit `d` (`0 <= d < 10`).
pub open spec fn digit_char(d: nat) -> char {
    (48 + d) as char
}

/// Decimal representation of `n`, most significant digit first, without leading zeros.
pub open spec fn decimal(n: nat) -> Seq<char>
    decreases n,
{
    if n < 10 {
        seq![digit_char(n)]
    } else {
        decimal(n / 10).push(digit_char(n % 10))
    }
}

/// Appends `c` to `s` (`String::push`).
#[verifier::external_body]
pub(crate) fn push_char(s: &mut String, c: char)
    ensures
        final(s)@ == old(s)@.push(c),
{
    s.push(c);
}

/// The characters of `s`, in order.
pub fn chars_of(s: &str) -> (res: Vec<char>)
    ensures
        res@ == s@,
{
    let mut res: Vec<char> = Vec::new();
    for c in it: s.chars()
        invariant
            res@ == it.seq().take(it.index() as int),
            it.seq() == s@,
    {
        res.push(c);
    }
    res
}

/// Appends the decimal representation of `n` to `s`.
pub fn push_decimal(s: &mut String, n: u64)
    ensures
        final(s)@ == old(s)@ + decimal(n as nat),
    decreases n,
{
    if n >= 10 {
        push_decimal(s, n / 10);
    }
    let d: u8 = (n % 10) as u8;
    let c: char = (48u8 + d) as char;
    push_char(s, c);
    assert(c == digit_char((n % 10) as nat));
}

} // verus!

verus! {

/// `c` is an ASCII decimal digit.
pub open spec fn is_digit(c: char) -> bool {
    '0' <= c && c <= '9'
}

/// Every character of `s` is an ASCII decimal digit.
pub open spec fn all_digits(s: Seq<char>) -> bool {
    forall|i: int| 0 <= i < s.len() ==> is_digit(#[trigger] s[i])
}

/// The number written by the digits `s` (leading zeros allowed).
pub open spec fn digits_value(s: Seq<char>) -> nat
    decreases s.len(),
{
    if s.len() == 0 {
        0
    } else {
        digits_value(s.drop_last()) * 10 + (s.last() as nat - 48) as nat
    }
}

/// What `str::parse` gives for an unsigned integer type, before the range check:
/// an optional `+` followed by at least one decimal digit.
pub open spec fn unsigned_text_value(s: Seq<char>) -> Option<nat> {
    let body = if s.len() > 0 && s[0] == '+' { s.drop_first() } else { s };
    if body.len() > 0 && all_digits(body) {
        Some(digits_value(body))
    } else {
        None
    }
}

/// What `str::parse` gives for a signed integer type, before the range check:
/// an optional `+` or `-` followed by at least one decimal digit.
pub open spec fn signed_text_value(s: Seq<char>) -> Option<int> {
    if s.len() > 0 && s[0] == '-' {
        let body = s.drop_first();
        if body.len() > 0 && all_digits(body) {
            Some(-(digits_value(body) as int))
        } else {
            None
        }
    } else {
        match unsigned_text_value(s) {
            Some(v) => Some(v as int),
            None => None,
        }
    }
}

/// What `s.parse::<u16>()` returns.
pub open spec fn spec_parse_u16(s: Seq<char>) -> Option<u16> {
    match unsigned_text_value(s) {
        Some(v) => if v <= u16::MAX { Some(v as u16) } else { None },
        None => None,
    }
}

/// What `s.parse::<u32>()` returns.
pub open spec fn spec_parse_u32(s: Seq<char>) -> Option<u32> {
    match unsigned_text_value(s) {
        Some(v) => if v <= u32::MAX { Some(v as u32) } else { None },
        None => None,
    }
}

/// What `s.parse::<u64>()` returns.
pub open spec fn spec_parse_u64(s: Seq<char>) -> Option<u64> {
    match unsigned_text_value(s) {
        Some(v) => if v <= u64::MAX { Some(v as u64) } else { None },
        None => None,
    }
}

/// What `s.parse::<i32>()` returns.
pub open spec fn spec_parse_i32(s: Seq<char>) -> Option<i32> {
    match signed_text_value(s) {
        Some(v) => if i32::MIN <= v <= i32::MAX { Some(v as i32) } else { None },
        None => None,
    }
}

/// What `s.parse::<isize>()` returns.
pub open spec fn spec_parse_isize(s: Seq<char>) -> Option<isize> {
    match signed_text_value(s) {
        Some(v) => if isize::MIN <= v <= isize::MAX { Some(v as isize) } else { None },
        None => None,
    }
}

/// A longer run of digits denotes at least as much.
pub proof fn lemma_digits_value_prefix(s: Seq<char>, j: int)
    requires
        0 <= j <= s.len(),
        all_digits(s),
    ensures
        digits_value(s.take(j)) <= digits_value(s),
    decreases s.len(),
{
    if j < s.len() {
        assert(s.drop_last().take(j) =~= s.take(j));
        lemma_digits_value_prefix(s.drop_last(), j);
    } else {
        assert(s.take(j) =~= s);
    }
}

/// Leading zeros do not change the value of a run of digits.
pub proof fn lemma_digits_value_leading_zeros(zeros: Seq<char>, s: Seq<char>)
    requires
        forall|i: int| 0 <= i < zeros.len() ==> zeros[i] == '0',
    ensures
        digits_value(zeros + s) == digits_value(s),
    decreases s.len(),
{
    if s.len() == 0 {
        assert(zeros + s =~= zeros);
        lemma_zeros_value(zeros);
    } else {
        assert((zeros + s).drop_last() =~= zeros + s.drop_last());
        lemma_digits_value_leading_zeros(zeros, s.drop_last());
    }
}

proof fn lemma_zeros_value(zeros: Seq<char>)
    requires
        forall|i: int| 0 <= i < zeros.len() ==> zeros[i] == '0',
    ensures
        digits_value(zeros) == 0,
    decreases zeros.len(),
{
    if zeros.len() > 0 {
        lemma_zeros_value(zeros.drop_last());
    }
}

/// The decimal text of `n` is a nonempty run of digits that denotes `n`.
pub proof fn lemma_decimal(n: nat)
    ensures
        decimal(n).len() > 0,
        all_digits(decimal(n)),
        digits_value(decimal(n)) == n,
        decimal(n)[0] != '+',
        decimal(n)[0] != '-',
    decreases n,
{
    let d = decimal(n);
    lemma_digit_char(n % 10);
    if n >= 10 {
        lemma_decimal(n / 10);
        assert(d.drop_last() =~= decimal(n / 10));
        assert(d[0] == decimal(n / 10)[0]);
        assert(d.last() == digit_char(n % 10));
        assert(digits_value(d) == digits_value(decimal(n / 10)) * 10 + (n % 10));
        assert((n / 10) * 10 + n % 10 == n);
    } else {
        assert(d.drop_last() =~= Seq::<char>::empty());
        assert(n % 10 == n);
        assert(d.last() == digit_char(n));
        assert(digits_value(d) == digits_value(d.drop_last()) * 10 + (d.last() as nat - 48) as nat);
    }
}

/// A digit character denotes its digit.
pub proof fn lemma_digit_char(d: nat)
    requires
        d < 10,
    ensures
        digit_char(d) as nat == 48 + d,
        is_digit(digit_char(d)),
        digit_char(d) != '+',
        digit_char(d) != '-',
{
}

/// Parsing the decimal text of `n` as an unsigned number gives `n` back.
pub proof fn lemma_decimal_parses(n: nat)
    ensures
        unsigned_text_value(decimal(n)) == Some(n),
        signed_text_value(decimal(n)) == Some(n as int),
{
    lemma_decimal(n);
}

/// Whether `s[start..]` is a nonempty run of digits denoting at most `limit`, and its value.
fn digits_at_most(s: &Vec<char>, start: usize, limit: u64) -> (res: Option<u64>)
    requires
        start <= s@.len(),
    ensures
        match res {
            Some(v) => {
                &&& s@.len() > start
                &&& all_digits(s@.skip(start as int))
                &&& v == digits_value(s@.skip(start as int))
                &&& v <= limit
            },
            None => !(s@.len() > start && all_digits(s@.skip(start as int)) && digits_value(
                s@.skip(start as int),
            ) <= limit),
        },
{
    let ghost body = s@.skip(start as int);
    if start == s.len() {
        return None;
    }
    let mut acc: u128 = 0;
    let mut i: usize = start;
    while i < s.len()
        invariant
            start <= i <= s@.len(),
            body == s@.skip(start as int),
            all_digits(body.take(i - start)),
            acc == digits_value(body.take(i - start)),
            acc <= limit,
        decreases s@.len() - i,
    {
        let c = s[i];
        if !('0' <= c && c <= '9') {
            proof {
                assert(body[i - start] == c);
            }
            return None;
        }
        let d: u128 = (c as u32 - 48) as u128;
        proof {
            assert(body.take(i + 1 - start).drop_last() =~= body.take(i - start));
            assert(body.take(i + 1 - start).last() == c);
        }
        acc = acc * 10 + d;
        i = i + 1;
        assert(all_digits(body.take(i - start))) by {
            assert forall|k: int| 0 <= k < i - start implies is_digit(
                #[trigger] body.take(i - start)[k],
            ) by {
                if k < i - 1 - start {
                    assert(body.take(i - start)[k] == body.take(i - 1 - start)[k]);
                }
            }
        }
        if acc > limit as u128 {
            proof {
                if all_digits(body) {
                    lemma_digits_value_prefix(body, i - start);
                }
            }
            return None;
        }
    }
    assert(body.take(i - start) =~= body);
    Some(acc as u64)
}

/// Parses `s` as `str::parse` does for an integer type whose values are `-neg_limit..=pos_limit`
/// (`neg_limit == 0` for unsigned types).
fn parse_integer(s: &str, neg_limit: u64, pos_limit: u64) -> (res: Option<(bool, u64)>)
    ensures
        match res {
            Some((negative, magnitude)) => {
                &&& signed_text_value(s@) == Some(
                    if negative { -(magnitude as int) } else { magnitude as int },
                )
                &&& negative ==> neg_limit > 0 && magnitude <= neg_limit && magnitude > 0
                &&& !negative ==> magnitude <= pos_limit
                &&& neg_limit == 0 ==> !(s@.len() > 0 && s@[0] == '-')
            },
            None => match signed_text_value(s@) {
                Some(v) => v > pos_limit || v < -(neg_limit as int) || (neg_limit == 0 && s@.len() > 0 && s@[0] == '-'),
                None => true,
            },
        },
{
    let chars = chars_of(s);
    if chars.len() > 0 && chars[0] == '-' {
        if neg_limit == 0 {
            return None;
        }
        assert(chars@.skip(1) =~= s@.drop_first());
        match digits_at_most(&chars, 1, neg_limit) {
            Some(m) => {
                if m == 0 {
                    Some((false, 0))
                } else {
                    Some((true, m))
                }
            },
            None => None,
        }
    } else {
        let start: usize = if chars.len() > 0 && chars[0] == '+' { 1 } else { 0 };
        if start == 1 {
            assert(chars@.skip(1) =~= s@.drop_first());
        }
        assert(chars@.skip(0) =~= s@);
        match digits_at_most(&chars, start, pos_limit) {
            Some(m) => Some((false, m)),
            None => None,
        }
    }
}


/// Text signed parsing agrees with unsigned parsing unless the text starts with `-`.
proof fn lemma_signed_unsigned(s: Seq<char>)
    ensures
        (s.len() == 0 || s[0] != '-') ==> signed_text_value(s) == match unsigned_text_value(s) {
            Some(v) => Some(v as int),
            None => None::<int>,
        },
        (s.len() > 0 && s[0] == '-') ==> unsigned_text_value(s) is None,
{
    if s.len() > 0 && s[0] == '-' {
        assert(!is_digit(s[0]));
    }
}

/// Whether `s` is an optional `+` followed by at least one decimal digit (`unsigned_text_value`
/// is defined).
pub fn is_unsigned_text(s: &str) -> (res: bool)
    ensures
        res == unsigned_text_value(s@) is Some,
{
    let chars = chars_of(s);
    let start: usize = if chars.len() > 0 && chars[0] == '+' { 1 } else { 0 };
    let ghost body = if s@.len() > 0 && s@[0] == '+' { s@.drop_first() } else { s@ };
    assert(chars@.skip(start as int) =~= body);
    if start >= chars.len() {
        return false;
    }
    let mut i: usize = start;
    while i < chars.len()
        invariant
            start <= i <= chars@.len(),
            chars@ == s@,
            body == chars@.skip(start as int),
            body == (if s@.len() > 0 && s@[0] == '+' { s@.drop_first() } else { s@ }),
            body.len() > 0,
            forall|k: int| 0 <= k < i - start ==> is_digit(#[trigger] body[k]),
        decreases chars@.len() - i,
    {
        let c = chars[i];
        assert(body[i - start] == c);
        if !('0' <= c && c <= '9') {
            assert(!is_digit(body[i - start]));
            return false;
        }
        i = i + 1;
    }
    assert(all_digits(body));
    true
}

/// `s.parse::<u16>()`.
pub fn parse_u16(s: &str) -> (res: Option<u16>)
    ensures
        res == spec_parse_u16(s@),
{
    proof {
        lemma_signed_unsigned(s@);
    }
    match parse_integer(s, 0, 65535) {
        Some((_, m)) => Some(m as u16),
        None => None,
    }
}

/// `s.parse::<u32>()`.
pub fn parse_u32(s: &str) -> (res: Option<u32>)
    ensures
        res == spec_parse_u32(s@),
{
    proof {
        lemma_signed_unsigned(s@);
    }
    match parse_integer(s, 0, 0xffff_ffff) {
        Some((_, m)) => Some(m as u32),
        None => None,
    }
}

/// `s.parse::<u64>()`.
pub fn parse_u64(s: &str) -> (res: Option<u64>)
    ensures
        res == spec_parse_u64(s@),
{
    proof {
        lemma_signed_unsigned(s@);
    }
    match parse_integer(s, 0, 0xffff_ffff_ffff_ffff) {
        Some((_, m)) => Some(m),
        None => None,
    }
}

/// `s.parse::<i32>()`.
pub fn parse_i32(s: &str) -> (res: Option<i32>)
    ensures
        res == spec_parse_i32(s@),
{
    match parse_integer(s, 0x8000_0000, 0x7fff_ffff) {
        Some((negative, m)) => if negative {
            Some((0 - (m as i64)) as i32)
        } else {
            Some(m as i32)
        },
        None => None,
    }
}

/// `s.parse::<isize>()`.
pub fn parse_isize(s: &str) -> (res: Option<isize>)
    ensures
        res == spec_parse_isize(s@),
{
    let pos_limit: u64 = isize::MAX as u64;
    let neg_limit: u64 = pos_limit + 1;
    match parse_integer(s, neg_limit, pos_limit) {
        Some((negative, m)) => if negative {
            if m == neg_limit {
                Some(isize::MIN)
            } else {
                Some(0 - (m as isize))
            }
        } else {
            Some(m as isize)
        },
        None => None,
    }
}

/// `s` left-padded with `'0'` up to `width` characters.
pub open spec fn zero_padded(s: Seq<char>, width: nat) -> Seq<char> {
    if s.len() < width {
        Seq::new((width - s.len()) as nat, |i: int| '0') + s
    } else {
        s
    }
}

/// `format!("{:0>width$}", number)`: the decimal text of `number`, left-padded with zeros.
pub fn pad_number(number: u16, desired_length: usize) -> (res: String)
    ensures
        res@ == zero_padded(decimal(number as nat), desired_length as nat),
{
    let mut digits = String::new();
    push_decimal(&mut digits, number as u64);
    proof {
        lemma_decimal(number as nat);
    }
    let ghost d = decimal(number as nat);
    let n = digits.as_str().unicode_len();
    if n >= desired_length {
        return digits;
    }
    let mut res = String::new();
    let mut i: usize = 0;
    while i + n < desired_length
        invariant
            res@ == Seq::new(i as nat, |k: int| '0'),
            i + n <= desired_length,
        decreases desired_length - i,
    {
        push_char(&mut res, '0');
        i = i + 1;
        assert(res@ =~= Seq::new(i as nat, |k: int| '0'));
    }
    res.append(digits.as_str());
    res
}

/// A zero-padded decimal text parses back to its number.
pub proof fn lemma_padded_decimal_parses(n: nat, width: nat)
    ensures
        signed_text_value(zero_padded(decimal(n), width)) == Some(n as int),
        unsigned_text_value(zero_padded(decimal(n), width)) == Some(n),
{
    lemma_decimal(n);
    let d = decimal(n);
    let p = zero_padded(d, width);
    if d.len() < width {
        let zeros = Seq::new((width - d.len()) as nat, |i: int| '0');
        lemma_digits_value_leading_zeros(zeros, d);
        assert(p[0] == '0');
        assert(all_digits(p)) by {
            assert forall|i: int| 0 <= i < p.len() implies is_digit(#[trigger] p[i]) by {
                if i >= zeros.len() {
                    assert(p[i] == d[i - zeros.len()]);
                }
            }
        }
    }
}


/// `s` split at every `sep` (`str::split` with a one-character pattern): one more piece than
/// there are separators, pieces possibly empty.
pub open spec fn split_on(s: Seq<char>, sep: char) -> Seq<Seq<char>>
    decreases s.len(),
{
    if s.len() == 0 {
        seq![Seq::empty()]
    } else {
        let init = split_on(s.drop_last(), sep);
        if s.last() == sep {
            init.push(Seq::empty())
        } else {
            init.update(init.len() - 1, init.last().push(s.last()))
        }
    }
}

/// Splitting always gives at least one piece.
pub proof fn lemma_split_nonempty(s: Seq<char>, sep: char)
    ensures
        split_on(s, sep).len() >= 1,
    decreases s.len(),
{
    if s.len() > 0 {
        lemma_split_nonempty(s.drop_last(), sep);
    }
}

/// A text without the separator is a single piece.
pub proof fn lemma_split_single(s: Seq<char>, sep: char)
    requires
        forall|i: int| 0 <= i < s.len() ==> s[i] != sep,
    ensures
        split_on(s, sep) == seq![s],
    decreases s.len(),
{
    if s.len() == 0 {
        assert(s =~= Seq::<char>::empty());
    } else {
        lemma_split_single(s.drop_last(), sep);
        assert(s.last() != sep);
        assert(s.drop_last().push(s.last()) =~= s);
        assert(seq![s.drop_last()].update(0, s.drop_last().push(s.last())) =~= seq![s]);
    }
}

/// Splitting `a`, a separator, then `b` gives the pieces of `a` followed by those of `b`.
pub proof fn lemma_split_join(a: Seq<char>, sep: char, b: Seq<char>)
    ensures
        split_on(a + seq![sep] + b, sep) == split_on(a, sep) + split_on(b, sep),
    decreases b.len(),
{
    lemma_split_nonempty(a, sep);
    if b.len() == 0 {
        assert((a + seq![sep] + b).drop_last() =~= a);
        assert(split_on(b, sep) =~= seq![Seq::<char>::empty()]);
        assert(split_on(a, sep).push(Seq::empty()) =~= split_on(a, sep) + seq![Seq::<char>::empty()]);
    } else {
        let s = a + seq![sep] + b;
        assert(s.drop_last() =~= a + seq![sep] + b.drop_last());
        assert(s.last() == b.last());
        lemma_split_join(a, sep, b.drop_last());
        lemma_split_nonempty(b.drop_last(), sep);
        let pa = split_on(a, sep);
        let pb = split_on(b.drop_last(), sep);
        if b.last() == sep {
            assert((pa + pb).push(Seq::empty()) =~= pa + pb.push(Seq::empty()));
        } else {
            assert((pa + pb).update((pa + pb).len() - 1, (pa + pb).last().push(b.last())) =~= pa
                + pb.update(pb.len() - 1, pb.last().push(b.last())));
        }
    }
}

/// The pieces of `s` split at `sep`.
pub fn split_chars(s: &str, sep: char) -> (res: Vec<String>)
    ensures
        res@.map_values(|p: String| p@) == split_on(s@, sep),
{
    let chars = chars_of(s);
    let mut pieces: Vec<String> = Vec::new();
    let mut cur = String::new();
    let mut i: usize = 0;
    while i < chars.len()
        invariant
            i <= chars@.len(),
            chars@ == s@,
            pieces@.map_values(|p: String| p@).push(cur@) == split_on(chars@.take(i as int), sep),
        decreases chars@.len() - i,
    {
        let c = chars[i];
        let ghost before = pieces@.map_values(|p: String| p@);
        assert(chars@.take(i + 1).drop_last() =~= chars@.take(i as int));
        if c == sep {
            let done = cur;
            pieces.push(done);
            cur = String::new();
            assert(pieces@.map_values(|p: String| p@).push(cur@) =~= split_on(
                chars@.take(i + 1),
                sep,
            ));
        } else {
            let ghost old_cur = cur@;
            push_char(&mut cur, c);
            assert(pieces@.map_values(|p: String| p@).push(cur@) =~= before.push(old_cur).update(
                before.len() as int,
                old_cur.push(c),
            ));
        }
        i = i + 1;
    }
    assert(chars@.take(i as int) =~= s@);
    let ghost before = pieces@.map_values(|p: String| p@);
    pieces.push(cur);
    assert(pieces@.map_values(|p: String| p@) =~= before.push(cur@));
    pieces
}

/// The texts joined with `sep` between them (`[T]::join`).
pub open spec fn joined(parts: Seq<Seq<char>>, sep: Seq<char>) -> Seq<char>
    decreases parts.len(),
{
    if parts.len() == 0 {
        Seq::empty()
    } else if parts.len() == 1 {
        parts[0]
    } else {
        joined(parts.drop_last(), sep) + sep + parts.last()
    }
}

/// The strings `parts[from..]` joined with `sep`.
pub fn join_from(parts: &Vec<String>, from: usize, sep: &str) -> (res: String)
    requires
        from <= parts@.len(),
    ensures
        res@ == joined(parts@.skip(from as int).map_values(|p: String| p@), sep@),
{
    let ghost all = parts@.skip(from as int).map_values(|p: String| p@);
    let mut res = String::new();
    let mut i: usize = from;
    while i < parts.len()
        invariant
            from <= i <= parts@.len(),
            all == parts@.skip(from as int).map_values(|p: String| p@),
            res@ == joined(all.take(i - from), sep@),
        decreases parts@.len() - i,
    {
        assert(all.take(i + 1 - from).drop_last() =~= all.take(i - from));
        assert(all[i - from] == parts@[i as int]@);
        if i > from {
            res.append(sep);
        } else {
            assert(res@ =~= Seq::<char>::empty());
        }
        res.append(parts[i].as_str());
        i = i + 1;
    }
    assert(all.take(i - from) =~= all);
    res
}

/// `t` occurs in `s`.
pub open spec fn occurs_in(t: Seq<char>, s: Seq<char>) -> bool {
    exists|i: int| 0 <= i && i + t.len() <= s.len() && #[trigger] s.subrange(i, i + t.len()) == t
}

/// Each part occurs in the parts joined with a separator.
pub proof fn lemma_part_occurs_in_joined(parts: Seq<Seq<char>>, sep: Seq<char>, i: int)
    requires
        0 <= i < parts.len(),
    ensures
        occurs_in(parts[i], joined(parts, sep)),
    decreases parts.len(),
{
    let j = joined(parts, sep);
    if parts.len() == 1 {
        let z: int = 0;
        assert(j.subrange(z, z + parts[0].len()) =~= parts[0]);
    } else if i == parts.len() - 1 {
        let prefix = joined(parts.drop_last(), sep) + sep;
        let o = prefix.len() as int;
        assert(j.subrange(o, o + parts[i].len()) =~= parts[i]);
    } else {
        let prev = joined(parts.drop_last(), sep);
        assert(parts.drop_last()[i] == parts[i]);
        lemma_part_occurs_in_joined(parts.drop_last(), sep, i);
        let o = choose|o: int|
            0 <= o && o + parts[i].len() <= prev.len() && #[trigger] prev.subrange(
                o,
                o + parts[i].len(),
            ) == parts[i];
        assert(j.subrange(o, o + parts[i].len()) =~= prev.subrange(o, o + parts[i].len()));
    }
}

/// What occurs in a text occurs in it with anything put before it.
pub proof fn lemma_occurs_after_prefix(t: Seq<char>, prefix: Seq<char>, s: Seq<char>)
    requires
        occurs_in(t, s),
    ensures
        occurs_in(t, prefix + s),
{
    let o = choose|o: int| 0 <= o && o + t.len() <= s.len() && #[trigger] s.subrange(o, o + t.len()) == t;
    assert((prefix + s).subrange(prefix.len() + o, prefix.len() + o + t.len()) =~= s.subrange(
        o,
        o + t.len(),
    ));
}

/// Whether `needle` occurs in `haystack` (`str::contains`).
pub fn text_contains(haystack: &str, needle: &str) -> (res: bool)
    ensures
        res == occurs_in(needle@, haystack@),
{
    let h = chars_of(haystack);
    let n = chars_of(needle);
    if n.len() > h.len() {
        return false;
    }
    let mut i: usize = 0;
    while i <= h.len() - n.len()
        invariant
            h@ == haystack@,
            n@ == needle@,
            n@.len() <= h@.len(),
            i <= h@.len() - n@.len() + 1,
            forall|k: int| 0 <= k < i ==> #[trigger] h@.subrange(k, k + n@.len()) != n@,
        decreases h@.len() - i,
    {
        let mut j: usize = 0;
        let mut same = true;
        while j < n.len()
            invariant
                i + n@.len() <= h@.len(),
                h@.len() <= usize::MAX,
                j <= n@.len(),
                same == forall|k: int| 0 <= k < j ==> h@[i + k] == n@[k],
            decreases n@.len() - j,
        {
            if h[i + j] != n[j] {
                same = false;
            }
            j = j + 1;
        }
        if same {
            assert(h@.subrange(i as int, i + n@.len()) =~= n@);
            return true;
        }
        assert(h@.subrange(i as int, i + n@.len()) != n@) by {
            let k = choose|k: int| 0 <= k < n@.len() && h@[i + k] != n@[k];
            assert(h@.subrange(i as int, i + n@.len())[k] == h@[i + k]);
        }
        i = i + 1;
    }
    proof {
        assert forall|k: int| 0 <= k && k + n@.len() <= h@.len() implies #[trigger] h@.subrange(
            k,
            k + n@.len(),
        ) != n@ by {
            assert(k < i);
        }
    }
    false
}

} // verus!
