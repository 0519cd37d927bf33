//! Splitting a serialized control datagram into `fragment` datagrams that fit a size limit.
use vstd::prelude::*;
use vstd::string::*;
use crate::content::Content;
use crate::control_datagram::{decimal_string, has_shape, owned, ControlDatagram};
use crate::digest::{sha256_digest, sha256_hex};
use crate::text::{decimal, pad_number, push_char, zero_padded, chars_of};

verus! {

/// The text with a NUL character inserted before every double quote.
///
/// A double quote doubles in size when the text is embedded in a JSON string;
/// the inserted NUL reserves that room when the text is cut into pieces.
pub open spec fn quote_marked(s: Seq<char>) -> Seq<char>
    decreases s.len(),
{
    if s.len() == 0 {
        Seq::empty()
    } else {
        quote_marked(s.drop_last()) + if s.last() == '"' {
            seq!['\0', '"']
        } else {
            seq![s.last()]
        }
    }
}

/// The text without its NUL characters.
pub open spec fn without_nul(s: Seq<char>) -> Seq<char>
    decreases s.len(),
{
    if s.len() == 0 {
        Seq::empty()
    } else {
        without_nul(s.drop_last()) + if s.last() == '\0' {
            Seq::empty()
        } else {
            seq![s.last()]
        }
    }
}

/// Number of bytes of the UTF-8 encoding of `c`.
pub open spec fn utf8_width(c: char) -> nat {
    if (c as u32) < 0x80 {
        1
    } else if (c as u32) < 0x800 {
        2
    } else if (c as u32) < 0x10000 {
        3
    } else {
        4
    }
}

/// Number of bytes of the UTF-8 encoding of `s`.
pub open spec fn utf8_size(s: Seq<char>) -> nat
    decreases s.len(),
{
    if s.len() == 0 {
        0
    } else {
        utf8_size(s.drop_last()) + utf8_width(s.last())
    }
}

/// The pieces that cutting `rest` gives, after the pieces `done` and with `cur` (of `cur_bytes`
/// bytes) begun: a piece ends as soon as it holds exactly `d` bytes, and the text that remains
/// at the end, if any, is the last piece. A piece never ends on a NUL marker: where it would,
/// it ends one byte short and the marker opens the next piece, with its quote. `None` when a
/// cut would fall inside a character, or the piece before a marker would be empty or end on
/// another NUL.
pub open spec fn cut_from(
    rest: Seq<char>,
    d: nat,
    done: Seq<Seq<char>>,
    cur: Seq<char>,
    cur_bytes: nat,
) -> Option<Seq<Seq<char>>>
    decreases rest.len(),
{
    if rest.len() == 0 {
        if cur.len() == 0 {
            Some(done)
        } else {
            Some(done.push(cur))
        }
    } else {
        let c = rest[0];
        let b = cur_bytes + utf8_width(c);
        if b < d {
            cut_from(rest.drop_first(), d, done, cur.push(c), b)
        } else if b == d {
            if c == '\0' {
                if cur.len() == 0 || cur.last() == '\0' {
                    None
                } else {
                    cut_from(rest.drop_first(), d, done.push(cur), seq!['\0'], 1)
                }
            } else {
                cut_from(rest.drop_first(), d, done.push(cur.push(c)), Seq::empty(), 0)
            }
        } else {
            None
        }
    }
}

/// The text cut into consecutive pieces of `d` UTF-8 bytes each, one fewer where a piece would
/// end on a NUL marker, the last one possibly shorter; `None` as `cut_from` says.
pub open spec fn byte_chunks(s: Seq<char>, d: nat) -> Option<Seq<Seq<char>>> {
    cut_from(s, d, Seq::empty(), Seq::empty(), 0)
}

/// The pieces joined back together.
pub open spec fn concat(pieces: Seq<Seq<char>>) -> Seq<char>
    decreases pieces.len(),
{
    if pieces.len() == 0 {
        Seq::empty()
    } else {
        concat(pieces.drop_last()) + pieces.last()
    }
}

/// The fields of a `fragment` datagram.
pub open spec fn fragment_content(
    digest: Seq<char>,
    content_type: Seq<char>,
    index: u16,
    length: u16,
    data: Seq<char>,
) -> Map<Seq<char>, Seq<char>> {
    Map::empty().insert("digest"@, digest).insert("contentType"@, content_type).insert(
        "index"@,
        zero_padded(decimal(index as nat), 5),
    ).insert("length"@, zero_padded(decimal(length as nat), 5)).insert("data"@, data)
}

/// The size left for the data of one fragment, when fragments are at most `datagram_max_size`
/// bytes and a fragment with empty data takes `empty_fragment_size` bytes.
pub open spec fn data_max_size(datagram_max_size: u16, empty_fragment_size: nat) -> nat {
    (datagram_max_size - empty_fragment_size) as nat
}

/// `json` can be cut into fragments: the limit leaves room for data and no cut falls inside
/// a character.
pub open spec fn can_fragment(json: Seq<char>, datagram_max_size: u16, empty_fragment_size: nat) -> bool {
    &&& empty_fragment_size < datagram_max_size
    &&& byte_chunks(quote_marked(json), data_max_size(datagram_max_size, empty_fragment_size)) is Some
}

/// The pieces of data that the fragments of `json` carry, before NULs are removed.
pub open spec fn fragment_pieces(json: Seq<char>, datagram_max_size: u16, empty_fragment_size: nat) -> Seq<
    Seq<char>,
> {
    byte_chunks(quote_marked(json), data_max_size(datagram_max_size, empty_fragment_size)).unwrap()
}

/// The fields of fragment `i` of `json`.
pub open spec fn fragment_of(
    json: Seq<char>,
    datagram_max_size: u16,
    empty_fragment_size: nat,
    i: int,
) -> Map<Seq<char>, Seq<char>> {
    let pieces = fragment_pieces(json, datagram_max_size, empty_fragment_size);
    fragment_content(
        sha256_hex(quote_marked(json)),
        "control_datagram"@,
        (i % 65536) as u16,
        (pieces.len() % 65536) as u16,
        without_nul(pieces[i]),
    )
}

/// UTF-8 width of a character.
fn char_width(c: char) -> (res: usize)
    ensures
        res == utf8_width(c),
{
    let cp = c as u32;
    if cp < 0x80 {
        1
    } else if cp < 0x800 {
        2
    } else if cp < 0x10000 {
        3
    } else {
        4
    }
}

/// The views of a vector of character vectors.
pub open spec fn views(v: Seq<Vec<char>>) -> Seq<Seq<char>> {
    v.map_values(|x: Vec<char>| x@)
}

/// Cuts `w` into pieces of `d` bytes, as `byte_chunks` says.
fn cut_chunks(w: &Vec<char>, d: usize) -> (res: Option<Vec<Vec<char>>>)
    requires
        0 < d <= 65535,
    ensures
        match res {
            Some(v) => byte_chunks(w@, d as nat) == Some(views(v@)),
            None => byte_chunks(w@, d as nat) is None,
        },
{
    let mut done: Vec<Vec<char>> = Vec::new();
    let mut cur: Vec<char> = Vec::new();
    let mut cur_bytes: usize = 0;
    let mut i: usize = 0;
    assert(w@.skip(0) =~= w@);
    assert(views(done@) =~= Seq::<Seq<char>>::empty());
    while i < w.len()
        invariant
            0 < d <= 65535,
            i <= w@.len(),
            cur_bytes < d,
            cur@.len() == 0 <==> cur_bytes == 0,
            byte_chunks(w@, d as nat) == cut_from(
                w@.skip(i as int),
                d as nat,
                views(done@),
                cur@,
                cur_bytes as nat,
            ),
        decreases w@.len() - i,
    {
        let c = w[i];
        let b = cur_bytes + char_width(c);
        let ghost rest = w@.skip(i as int);
        assert(rest[0] == c);
        assert(rest.drop_first() =~= w@.skip(i + 1));
        if b < d {
            cur.push(c);
            cur_bytes = b;
        } else if b == d {
            if c == '\0' {
                assert(utf8_width('\0') == 1);
                if cur.len() == 0 || cur[cur.len() - 1] == '\0' {
                    return None;
                }
                let ghost old_done = done@;
                done.push(cur);
                assert(views(done@) =~= views(old_done).push(cur@));
                cur = Vec::new();
                cur.push('\0');
                cur_bytes = 1;
                assert(cur@ =~= seq!['\0']);
            } else {
                cur.push(c);
                let ghost old_done = done@;
                done.push(cur);
                assert(views(done@) =~= views(old_done).push(cur@));
                cur = Vec::new();
                cur_bytes = 0;
                assert(cur@ =~= Seq::<char>::empty());
            }
        } else {
            return None;
        }
        i = i + 1;
    }
    assert(w@.skip(i as int) =~= Seq::<char>::empty());
    if cur.len() > 0 {
        let ghost old_done = done@;
        done.push(cur);
        assert(views(done@) =~= views(old_done).push(cur@));
    }
    Some(done)
}

/// `quote_marked(s)` for the characters `s`.
fn mark_quotes(s: &Vec<char>) -> (res: Vec<char>)
    ensures
        res@ == quote_marked(s@),
{
    let mut res: Vec<char> = Vec::new();
    let mut i: usize = 0;
    while i < s.len()
        invariant
            i <= s@.len(),
            res@ == quote_marked(s@.take(i as int)),
        decreases s@.len() - i,
    {
        let c = s[i];
        assert(s@.take(i + 1).drop_last() =~= s@.take(i as int));
        if c == '"' {
            res.push('\0');
            res.push('"');
        } else {
            res.push(c);
        }
        i = i + 1;
        assert(res@ =~= quote_marked(s@.take(i as int)));
    }
    assert(s@.take(i as int) =~= s@);
    res
}

/// The text of the characters `s`, without NULs.
fn string_without_nul(s: &Vec<char>) -> (res: String)
    ensures
        res@ == without_nul(s@),
{
    let mut res = String::new();
    let mut i: usize = 0;
    while i < s.len()
        invariant
            i <= s@.len(),
            res@ == without_nul(s@.take(i as int)),
        decreases s@.len() - i,
    {
        let c = s[i];
        assert(s@.take(i + 1).drop_last() =~= s@.take(i as int));
        if c != '\0' {
            push_char(&mut res, c);
        }
        i = i + 1;
        assert(res@ =~= without_nul(s@.take(i as int)));
    }
    assert(s@.take(i as int) =~= s@);
    res
}

/// The text of the characters `s`.
pub fn string_of_chars(s: &Vec<char>) -> (res: String)
    ensures
        res@ == s@,
{
    let mut res = String::new();
    let mut i: usize = 0;
    while i < s.len()
        invariant
            i <= s@.len(),
            res@ == s@.take(i as int),
        decreases s@.len() - i,
    {
        push_char(&mut res, s[i]);
        i = i + 1;
        assert(res@ =~= s@.take(i as int));
    }
    assert(s@.take(i as int) =~= s@);
    res
}

impl ControlDatagram {
    /// A `fragment` datagram carrying `data`, piece `index` of `length` pieces of the text
    /// whose digest is `digest`.
    pub fn fragment(digest: String, content_type: String, index: u16, length: u16, data: String) -> (res:
        ControlDatagram)
        ensures
            has_shape(
                res,
                1,
                "fragment"@,
                fragment_content(digest@, content_type@, index, length, data@),
            ),
    {
        let mut content = Content::new();
        content.insert(owned("digest"), digest);
        content.insert(owned("contentType"), content_type);
        content.insert(owned("index"), pad_number(index, 5));
        content.insert(owned("length"), pad_number(length, 5));
        content.insert(owned("data"), data);
        ControlDatagram { version: 1, kind: owned("fragment"), content }
    }

    /// The fragment with empty data whose serialized size is the fixed cost of a fragment.
    pub fn empty_fragment() -> (res: ControlDatagram)
        ensures
            has_shape(
                res,
                1,
                "fragment"@,
                fragment_content(sha256_hex(""@), "control_datagram"@, 0, 0, ""@),
            ),
    {
        ControlDatagram::fragment(
            sha256_digest(""),
            owned("control_datagram"),
            0,
            0,
            owned(""),
        )
    }

    /// Whether `json` can be fragmented under the limit `datagram_max_size`, when a fragment
    /// with empty data serializes to `empty_fragment_size` bytes.
    pub fn fragmentable(json: &str, datagram_max_size: u16, empty_fragment_size: usize) -> (res:
        bool)
        ensures
            res == can_fragment(json@, datagram_max_size, empty_fragment_size as nat),
    {
        if empty_fragment_size >= datagram_max_size as usize {
            return false;
        }
        let d: usize = datagram_max_size as usize - empty_fragment_size;
        let marked = mark_quotes(&chars_of(json));
        cut_chunks(&marked, d).is_some()
    }

    /// The fragments of the serialized datagram `json`: the text with a NUL before each double
    /// quote is cut into pieces of `datagram_max_size - empty_fragment_size` bytes, one byte
    /// fewer where a piece would end on a NUL (`byte_chunks`); fragment `i` carries piece `i`
    /// without its NULs, the digest of the marked text, its index and the number of pieces
    /// (both modulo 2^16, zero-padded to five digits).
    pub fn fragments_of_json(json: &str, datagram_max_size: u16, empty_fragment_size: usize) -> (res:
        Vec<ControlDatagram>)
        requires
            can_fragment(json@, datagram_max_size, empty_fragment_size as nat),
        ensures
            res@.len() == fragment_pieces(json@, datagram_max_size, empty_fragment_size as nat).len(),
            forall|i: int|
                0 <= i < res@.len() ==> has_shape(
                    #[trigger] res@[i],
                    1,
                    "fragment"@,
                    fragment_of(json@, datagram_max_size, empty_fragment_size as nat, i),
                ),
    {
        let d: usize = datagram_max_size as usize - empty_fragment_size;
        let marked = mark_quotes(&chars_of(json));
        let digest = sha256_digest(string_of_chars(&marked).as_str());
        let pieces = match cut_chunks(&marked, d) {
            Some(p) => p,
            None => {
                return Vec::new();
            },
        };
        let ghost ps = fragment_pieces(json@, datagram_max_size, empty_fragment_size as nat);
        assert(views(pieces@) == ps);
        let n = pieces.len();
        let length: u16 = (n % 65536) as u16;
        let mut res: Vec<ControlDatagram> = Vec::new();
        let mut i: usize = 0;
        while i < n
            invariant
                n == pieces@.len(),
                views(pieces@) == ps,
                ps == fragment_pieces(json@, datagram_max_size, empty_fragment_size as nat),
                length == (n % 65536) as u16,
                digest@ == sha256_hex(quote_marked(json@)),
                i <= n,
                res@.len() == i,
                forall|k: int|
                    0 <= k < i ==> has_shape(
                        #[trigger] res@[k],
                        1,
                        "fragment"@,
                        fragment_of(json@, datagram_max_size, empty_fragment_size as nat, k),
                    ),
            decreases n - i,
        {
            assert(views(pieces@)[i as int] == pieces@[i as int]@);
            let data = string_without_nul(&pieces[i]);
            let f = ControlDatagram::fragment(
                digest.clone(),
                owned("control_datagram"),
                (i % 65536) as u16,
                length,
                data,
            );
            res.push(f);
            i = i + 1;
        }
        res
    }
}


/// `k` characters of `json` make up half of its UTF-8 bytes (rounded down): the text is cut in
/// two halves there.
pub open spec fn is_half_cut(json: Seq<char>, k: int) -> bool {
    0 <= k <= json.len() && utf8_size(json.take(k)) == utf8_size(json) / 2
}

/// The number of characters before the cut into two halves.
pub open spec fn half_point(json: Seq<char>) -> int {
    choose|k: int| is_half_cut(json, k)
}

/// The fields of half `index` (0 or 1) of `json`, carrying `part`.
pub open spec fn half_content(json: Seq<char>, part: Seq<char>, index: nat) -> Map<Seq<char>, Seq<char>> {
    Map::empty().insert("digest"@, sha256_hex(json)).insert("contentType"@, "control_datagram"@).insert(
        "index"@,
        decimal(index),
    ).insert("length"@, decimal(2)).insert("data"@, part)
}

/// A longer prefix takes more bytes.
pub proof fn lemma_prefix_size_grows(s: Seq<char>, j: int, k: int)
    requires
        0 <= j < k <= s.len(),
    ensures
        utf8_size(s.take(j)) < utf8_size(s.take(k)),
    decreases k - j,
{
    assert(s.take(k).drop_last() =~= s.take(k - 1));
    if j < k - 1 {
        lemma_prefix_size_grows(s, j, k - 1);
    }
}

/// The cut into two halves is at one place only.
pub proof fn lemma_half_cut_unique(json: Seq<char>, k: int)
    requires
        is_half_cut(json, k),
    ensures
        half_point(json) == k,
{
    let c = half_point(json);
    assert(is_half_cut(json, c));
    if c < k {
        lemma_prefix_size_grows(json, c, k);
    } else if k < c {
        lemma_prefix_size_grows(json, k, c);
    }
}

/// The number of characters of `s` that make up half its UTF-8 bytes; `None` when that half
/// ends inside a character.
fn half_cut(s: &Vec<char>) -> (res: Option<usize>)
    ensures
        match res {
            Some(k) => is_half_cut(s@, k as int),
            None => forall|k: int| !is_half_cut(s@, k),
        },
{
    let mut total: u128 = 0;
    let mut i: usize = 0;
    while i < s.len()
        invariant
            i <= s@.len(),
            total == utf8_size(s@.take(i as int)),
            total <= 4 * i,
        decreases s@.len() - i,
    {
        assert(s@.take(i + 1).drop_last() =~= s@.take(i as int));
        total = total + char_width(s[i]) as u128;
        i = i + 1;
    }
    assert(s@.take(i as int) =~= s@);
    let half = total / 2;
    let mut size: u128 = 0;
    let mut k: usize = 0;
    while k < s.len() && size < half
        invariant
            k <= s@.len(),
            size == utf8_size(s@.take(k as int)),
            size <= 4 * k,
            half == utf8_size(s@) / 2,
            forall|j: int| 0 <= j < k ==> utf8_size(s@.take(j)) < half,
        decreases s@.len() - k,
    {
        assert(s@.take(k + 1).drop_last() =~= s@.take(k as int));
        size = size + char_width(s[k]) as u128;
        k = k + 1;
    }
    if size == half {
        Some(k)
    } else {
        proof {
            assert forall|j: int| !is_half_cut(s@, j) by {
                if is_half_cut(s@, j) {
                    if j < k {
                    } else if j > k {
                        lemma_prefix_size_grows(s@, k as int, j);
                    }
                }
            }
        }
        None
    }
}

impl ControlDatagram {
    /// The two fragments of the serialized datagram `json`: the text cut in two halves of its
    /// UTF-8 bytes (the first rounded down), numbered 0 and 1 of 2, with the digest of the
    /// text.
    pub fn halves_of_json(json: &str) -> (res: [ControlDatagram; 2])
        requires
            exists|k: int| is_half_cut(json@, k),
        ensures
            has_shape(
                res@[0],
                1,
                "fragment"@,
                half_content(json@, json@.take(half_point(json@)), 0),
            ),
            has_shape(
                res@[1],
                1,
                "fragment"@,
                half_content(json@, json@.skip(half_point(json@)), 1),
            ),
    {
        let chars = chars_of(json);
        let k = half_cut(&chars).unwrap();
        proof {
            lemma_half_cut_unique(json@, k as int);
        }
        let digest = sha256_digest(json);
        let mut first: Vec<char> = Vec::new();
        let mut second: Vec<char> = Vec::new();
        let mut i: usize = 0;
        while i < chars.len()
            invariant
                chars@ == json@,
                k <= chars@.len(),
                i <= chars@.len(),
                first@ == chars@.take(if i < k { i as int } else { k as int }),
                second@ == if i < k { Seq::<char>::empty() } else { chars@.subrange(k as int, i as int) },
            decreases chars@.len() - i,
        {
            if i < k {
                first.push(chars[i]);
                assert(first@ =~= chars@.take(if i + 1 < k { i + 1 } else { k as int }));
            } else {
                second.push(chars[i]);
                assert(second@ =~= chars@.subrange(k as int, i + 1));
            }
            i = i + 1;
        }
        assert(chars@.subrange(k as int, chars@.len() as int) =~= chars@.skip(k as int));
        [
            ControlDatagram::half(digest.clone(), 0, string_of_chars(&first)),
            ControlDatagram::half(digest, 1, string_of_chars(&second)),
        ]
    }

    /// Whether `json` can be cut in two halves: half of its UTF-8 bytes does not end inside a
    /// character.
    pub fn halvable(json: &str) -> (res: bool)
        ensures
            res == exists|k: int| is_half_cut(json@, k),
    {
        let chars = chars_of(json);
        match half_cut(&chars) {
            Some(k) => {
                assert(is_half_cut(json@, k as int));
                true
            },
            None => false,
        }
    }

    fn half(digest: String, index: u64, data: String) -> (res: ControlDatagram)
        requires
            index < 2,
        ensures
            res.version == 1,
            res.kind@ == "fragment"@,
            res.content@ == Map::empty().insert("digest"@, digest@).insert(
                "contentType"@,
                "control_datagram"@,
            ).insert("index"@, decimal(index as nat)).insert("length"@, decimal(2)).insert(
                "data"@,
                data@,
            ),
    {
        let mut content = Content::new();
        content.insert(owned("digest"), digest);
        content.insert(owned("contentType"), owned("control_datagram"));
        content.insert(owned("index"), decimal_string(index));
        content.insert(owned("length"), decimal_string(2));
        content.insert(owned("data"), data);
        ControlDatagram { version: 1, kind: owned("fragment"), content }
    }
}

/// Every piece is nonempty and none but the last ends on a NUL; all but the last hold exactly
/// `d` bytes, or `d - 1` when the next piece opens with a NUL; the last holds at most `d`.
pub open spec fn well_cut(pieces: Seq<Seq<char>>, d: nat) -> bool {
    &&& forall|i: int| 0 <= i < pieces.len() ==> #[trigger] pieces[i].len() > 0
    &&& forall|i: int| 0 <= i < pieces.len() - 1 ==> #[trigger] pieces[i].last() != '\0'
    &&& forall|i: int|
        0 <= i < pieces.len() - 1 ==> utf8_size(#[trigger] pieces[i]) == d || (utf8_size(pieces[i])
            + 1 == d && pieces[i + 1].len() > 0 && pieces[i + 1][0] == '\0')
    &&& pieces.len() > 0 ==> utf8_size(pieces.last()) <= d
}

/// A nonempty text takes at least one byte.
proof fn lemma_utf8_size_positive(s: Seq<char>)
    requires
        s.len() > 0,
    ensures
        utf8_size(s) > 0,
{
}

/// Pieces all of exactly `d` bytes, and nonempty.
/// The pieces cut so far are complete, with `cur` begun after them: each is nonempty, does not
/// end on a NUL, and holds `d` bytes, or `d - 1` when what follows it opens with a NUL.
spec fn full_pieces(done: Seq<Seq<char>>, d: nat, cur: Seq<char>) -> bool {
    &&& forall|i: int| 0 <= i < done.len() ==> #[trigger] done[i].len() > 0
    &&& forall|i: int| 0 <= i < done.len() ==> #[trigger] done[i].last() != '\0'
    &&& forall|i: int|
        0 <= i < done.len() ==> utf8_size(#[trigger] done[i]) == d || (utf8_size(done[i]) + 1 == d
            && if i + 1 < done.len() {
            done[i + 1].len() > 0 && done[i + 1][0] == '\0'
        } else {
            cur.len() > 0 && cur[0] == '\0'
        })
}

proof fn lemma_cut_from(
    rest: Seq<char>,
    d: nat,
    done: Seq<Seq<char>>,
    cur: Seq<char>,
    cur_bytes: nat,
)
    requires
        full_pieces(done, d, cur),
        cur_bytes == utf8_size(cur),
        cur_bytes < d,
        cut_from(rest, d, done, cur, cur_bytes) is Some,
    ensures
        ({
            let pieces = cut_from(rest, d, done, cur, cur_bytes).unwrap();
            &&& concat(pieces) == concat(done) + cur + rest
            &&& well_cut(pieces, d)
        }),
    decreases rest.len(),
{
    let pieces = cut_from(rest, d, done, cur, cur_bytes).unwrap();
    if rest.len() == 0 {
        if cur.len() == 0 {
            assert(concat(done) + cur + rest =~= concat(done));
            if done.len() > 0 {
                assert(utf8_size(done[done.len() - 1]) <= d);
            }
        } else {
            lemma_utf8_size_positive(cur);
            assert(pieces.drop_last() =~= done);
            assert(concat(done) + cur + rest =~= concat(done) + cur);
            assert forall|i: int| 0 <= i < pieces.len() - 1 implies utf8_size(#[trigger] pieces[i])
                == d || (utf8_size(pieces[i]) + 1 == d && pieces[i + 1].len() > 0 && pieces[i
                + 1][0] == '\0') by {
                assert(pieces[i] == done[i]);
            }
        }
    } else {
        let c = rest[0];
        let b = cur_bytes + utf8_width(c);
        let ncur = cur.push(c);
        assert(ncur.drop_last() =~= cur);
        assert(utf8_size(ncur) == b);
        assert(concat(done) + cur + rest =~= concat(done) + ncur + rest.drop_first());
        if b < d {
            assert(full_pieces(done, d, ncur)) by {
                if cur.len() > 0 {
                    assert(ncur[0] == cur[0]);
                }
            }
            lemma_cut_from(rest.drop_first(), d, done, ncur, b);
        } else if c == '\0' {
            let ndone = done.push(cur);
            let nul = seq!['\0'];
            assert(ndone.drop_last() =~= done);
            assert(utf8_width('\0') == 1);
            assert(nul.drop_last() =~= Seq::<char>::empty());
            assert(nul.last() == '\0');
            assert(utf8_size(Seq::<char>::empty()) == 0);
            assert(utf8_size(nul) == 1);
            assert(full_pieces(ndone, d, nul)) by {
                assert forall|i: int| 0 <= i < ndone.len() implies utf8_size(#[trigger] ndone[i])
                    == d || (utf8_size(ndone[i]) + 1 == d && if i + 1 < ndone.len() {
                    ndone[i + 1].len() > 0 && ndone[i + 1][0] == '\0'
                } else {
                    nul.len() > 0 && nul[0] == '\0'
                }) by {
                    if i < done.len() {
                        assert(ndone[i] == done[i]);
                    }
                }
            }
            lemma_cut_from(rest.drop_first(), d, ndone, nul, 1);
            assert(concat(ndone) + nul + rest.drop_first() =~= concat(done) + cur + rest);
        } else {
            let ndone = done.push(ncur);
            assert(ndone.drop_last() =~= done);
            assert(full_pieces(ndone, d, Seq::empty())) by {
                assert forall|i: int| 0 <= i < ndone.len() implies utf8_size(#[trigger] ndone[i])
                    == d || (utf8_size(ndone[i]) + 1 == d && if i + 1 < ndone.len() {
                    ndone[i + 1].len() > 0 && ndone[i + 1][0] == '\0'
                } else {
                    Seq::<char>::empty().len() > 0 && Seq::<char>::empty()[0] == '\0'
                }) by {
                    if i < done.len() {
                        assert(ndone[i] == done[i]);
                        if i + 1 == done.len() && cur.len() > 0 {
                            assert(ncur[0] == cur[0]);
                        }
                    }
                }
            }
            assert(utf8_size(Seq::<char>::empty()) == 0);
            lemma_cut_from(rest.drop_first(), d, ndone, Seq::empty(), 0);
            assert(concat(ndone) + Seq::<char>::empty() + rest.drop_first() =~= concat(done) + ncur
                + rest.drop_first());
        }
    }
}

pub proof fn lemma_byte_chunks(s: Seq<char>, d: nat)
    requires
        d > 0,
        byte_chunks(s, d) is Some,
    ensures
        concat(byte_chunks(s, d).unwrap()) == s,
        well_cut(byte_chunks(s, d).unwrap(), d),
{
    assert(concat(Seq::<Seq<char>>::empty()) == Seq::<char>::empty());
    lemma_cut_from(s, d, Seq::empty(), Seq::empty(), 0);
    assert(Seq::<char>::empty() + Seq::<char>::empty() + s =~= s);
}

/// Removing NULs distributes over concatenation.
pub proof fn lemma_without_nul_append(a: Seq<char>, b: Seq<char>)
    ensures
        without_nul(a + b) == without_nul(a) + without_nul(b),
    decreases b.len(),
{
    if b.len() == 0 {
        assert(a + b =~= a);
        assert(without_nul(a) + without_nul(b) =~= without_nul(a));
    } else {
        assert((a + b).drop_last() =~= a + b.drop_last());
        lemma_without_nul_append(a, b.drop_last());
        assert(without_nul(a + b) =~= without_nul(a) + without_nul(b));
    }
}

/// Marking the quotes of a NUL-free text and removing the NULs gives the text back.
pub proof fn lemma_unmark_quotes(s: Seq<char>)
    requires
        forall|i: int| 0 <= i < s.len() ==> s[i] != '\0',
    ensures
        without_nul(quote_marked(s)) == s,
    decreases s.len(),
{
    if s.len() > 0 {
        lemma_unmark_quotes(s.drop_last());
        let tail = if s.last() == '"' {
            seq!['\0', '"']
        } else {
            seq![s.last()]
        };
        lemma_without_nul_append(quote_marked(s.drop_last()), tail);
        reveal_with_fuel(without_nul, 3);
        if s.last() == '"' {
            assert(tail.drop_last() =~= seq!['\0']);
            assert(seq!['\0'].drop_last() =~= Seq::<char>::empty());
            assert(without_nul(tail) =~= seq!['"']);
        } else {
            assert(tail.drop_last() =~= Seq::<char>::empty());
            assert(without_nul(tail) =~= seq![s.last()]);
        }
        assert(s.drop_last().push(s.last()) =~= s);
    }
}

/// Removing NULs piece by piece and joining equals joining and then removing NULs.
pub proof fn lemma_concat_without_nul(pieces: Seq<Seq<char>>)
    ensures
        concat(pieces.map_values(|p: Seq<char>| without_nul(p))) == without_nul(concat(pieces)),
    decreases pieces.len(),
{
    let m = pieces.map_values(|p: Seq<char>| without_nul(p));
    if pieces.len() > 0 {
        lemma_concat_without_nul(pieces.drop_last());
        assert(m.drop_last() =~= pieces.drop_last().map_values(|p: Seq<char>| without_nul(p)));
        lemma_without_nul_append(concat(pieces.drop_last()), pieces.last());
    } else {
        assert(m =~= Seq::<Seq<char>>::empty());
    }
}

/// The data of fragment `i` of `json`.
pub open spec fn fragment_data(
    json: Seq<char>,
    datagram_max_size: u16,
    empty_fragment_size: nat,
    i: int,
) -> Seq<char> {
    fragment_of(json, datagram_max_size, empty_fragment_size, i)["data"@]
}

/// Joining the data of all the fragments of a NUL-free `json`, in index order, gives `json`
/// back; every piece but the last fills the data room of marked text exactly, or but for one
/// byte when the next piece opens with a NUL marker, and ends on no marker; the last piece
/// fits the room; there is at least one fragment unless `json` is empty.
pub proof fn law_fragments_rejoin(json: Seq<char>, datagram_max_size: u16, empty_fragment_size: nat)
    requires
        can_fragment(json, datagram_max_size, empty_fragment_size),
        forall|i: int| 0 <= i < json.len() ==> json[i] != '\0',
    ensures
        ({
            let pieces = fragment_pieces(json, datagram_max_size, empty_fragment_size);
            &&& concat(
                Seq::new(
                    pieces.len(),
                    |i: int| fragment_data(json, datagram_max_size, empty_fragment_size, i),
                ),
            ) == json
            &&& well_cut(pieces, data_max_size(datagram_max_size, empty_fragment_size))
            &&& (pieces.len() == 0 <==> json.len() == 0)
        }),
{
    let d = data_max_size(datagram_max_size, empty_fragment_size);
    let marked = quote_marked(json);
    let pieces = fragment_pieces(json, datagram_max_size, empty_fragment_size);
    lemma_byte_chunks(marked, d);
    lemma_concat_without_nul(pieces);
    lemma_unmark_quotes(json);
    let datas = Seq::new(
        pieces.len(),
        |i: int| fragment_data(json, datagram_max_size, empty_fragment_size, i),
    );
    reveal_strlit("data");
    reveal_strlit("digest");
    reveal_strlit("contentType");
    reveal_strlit("index");
    reveal_strlit("length");
    assert(datas =~= pieces.map_values(|p: Seq<char>| without_nul(p)));
    if json.len() == 0 {
        if pieces.len() > 0 {
            assert(pieces[0].len() > 0);
            lemma_concat_nonempty(pieces);
        }
    } else {
        if pieces.len() == 0 {
            assert(concat(pieces) =~= Seq::<char>::empty());
            lemma_quote_marked_len(json);
        }
    }
}

proof fn lemma_concat_nonempty(pieces: Seq<Seq<char>>)
    requires
        pieces.len() > 0,
        pieces[0].len() > 0,
    ensures
        concat(pieces).len() > 0,
    decreases pieces.len(),
{
    if pieces.len() > 1 {
        lemma_concat_nonempty(pieces.drop_last());
    }
}

proof fn lemma_quote_marked_len(s: Seq<char>)
    ensures
        quote_marked(s).len() >= s.len(),
    decreases s.len(),
{
    if s.len() > 0 {
        lemma_quote_marked_len(s.drop_last());
    }
}

} // verus!
