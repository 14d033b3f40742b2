//! The byte layout of message bodies, as `bincode` writes and reads it:
//! variable-length little-endian integers, and length-prefixed blobs, texts
//! and lists.
use bincode::Options;
use vstd::prelude::*;
use vstd::utf8::*;

verus! {

/// What `bincode` reports when it cannot write or read a value.
#[verifier::external_type_specification]
#[verifier::external_body]
pub struct ExErrorKind(bincode::ErrorKind);

/// `n` in `width` bytes, the least significant byte first.
pub open spec fn le_bytes(n: nat, width: nat) -> Seq<u8>
    decreases width,
{
    if width == 0 {
        Seq::empty()
    } else {
        seq![(n % 256) as u8] + le_bytes(n / 256, (width - 1) as nat)
    }
}

/// The number that `s` holds, the least significant byte first.
pub open spec fn le_value(s: Seq<u8>) -> nat
    decreases s.len(),
{
    if s.len() == 0 {
        0
    } else {
        s[0] as nat + 256 * le_value(s.drop_first())
    }
}

/// An unsigned integer: one byte below 251, or a marker byte and two, four or
/// eight bytes.
pub open spec fn varint(n: nat) -> Seq<u8> {
    if n < 251 {
        seq![n as u8]
    } else if n < 0x1_0000 {
        seq![251u8] + le_bytes(n, 2)
    } else if n < 0x1_0000_0000 {
        seq![252u8] + le_bytes(n, 4)
    } else {
        seq![253u8] + le_bytes(n, 8)
    }
}

/// A byte string: its length, then its bytes.
pub open spec fn blob(s: Seq<u8>) -> Seq<u8> {
    varint(s.len()) + s
}

/// One listed file: its path as length-prefixed UTF-8, then its size.
pub open spec fn listed(e: (Seq<char>, u64)) -> Seq<u8> {
    blob(encode_utf8(e.0)) + varint(e.1 as nat)
}

/// Listed files one after the other.
pub open spec fn listed_all(es: Seq<(Seq<char>, u64)>) -> Seq<u8>
    decreases es.len(),
{
    if es.len() == 0 {
        Seq::empty()
    } else {
        listed(es[0]) + listed_all(es.drop_first())
    }
}

/// A list of files: how many there are, then each of them.
pub open spec fn listing(es: Seq<(Seq<char>, u64)>) -> Seq<u8> {
    varint(es.len()) + listed_all(es)
}

/// How many bytes follow the first byte of an integer.
pub open spec fn varint_tail(lead: u8) -> nat {
    if lead < 251 {
        0
    } else if lead == 251 {
        2
    } else if lead == 252 {
        4
    } else {
        8
    }
}

/// The integer at the front of `s` and what follows it. The marker bytes 254
/// and 255 start no integer of at most 64 bits.
pub open spec fn read_varint(s: Seq<u8>) -> Option<(nat, Seq<u8>)> {
    if s.len() == 0 || s[0] > 253 || s.len() < 1 + varint_tail(s[0]) {
        None
    } else if s[0] < 251 {
        Some((s[0] as nat, s.skip(1)))
    } else {
        let end = 1 + varint_tail(s[0]) as int;
        Some((le_value(s.subrange(1, end)), s.skip(end)))
    }
}

/// The integer of at most 32 bits at the front of `s` and what follows it.
pub open spec fn read_tag(s: Seq<u8>) -> Option<(u32, Seq<u8>)> {
    match read_varint(s) {
        Some((n, rest)) if n <= u32::MAX => Some((n as u32, rest)),
        _ => None,
    }
}

/// The byte string at the front of `s` and what follows it.
pub open spec fn read_blob(s: Seq<u8>) -> Option<(Seq<u8>, Seq<u8>)> {
    match read_varint(s) {
        Some((n, rest)) if n <= rest.len() => Some((rest.take(n as int), rest.skip(n as int))),
        _ => None,
    }
}

/// The listed file at the front of `s` and what follows it.
pub open spec fn read_listed(s: Seq<u8>) -> Option<((Seq<char>, u64), Seq<u8>)> {
    match read_blob(s) {
        Some((path, rest)) if valid_utf8(path) => match read_varint(rest) {
            Some((size, rest)) => Some(((decode_utf8(path), size as u64), rest)),
            None => None,
        },
        _ => None,
    }
}

/// The `count` listed files at the front of `s` and what follows them.
pub open spec fn read_listed_all(s: Seq<u8>, count: nat) -> Option<
    (Seq<(Seq<char>, u64)>, Seq<u8>),
>
    decreases count,
{
    if count == 0 {
        Some((Seq::empty(), s))
    } else {
        match read_listed(s) {
            Some((e, rest)) => match read_listed_all(rest, (count - 1) as nat) {
                Some((es, rest)) => Some((seq![e] + es, rest)),
                None => None,
            },
            None => None,
        }
    }
}

/// The list of files at the front of `s` and what follows it.
pub open spec fn read_listing(s: Seq<u8>) -> Option<(Seq<(Seq<char>, u64)>, Seq<u8>)> {
    match read_varint(s) {
        Some((n, rest)) => read_listed_all(rest, n),
        None => None,
    }
}

/// The value that was read, where nothing follows it.
pub open spec fn whole<T>(read: Option<(T, Seq<u8>)>) -> Option<T> {
    match read {
        Some((v, rest)) if rest.len() == 0 => Some(v),
        _ => None,
    }
}

/// Two to the power of eight times `width`.
pub open spec fn byte_range(width: nat) -> nat
    decreases width,
{
    if width == 0 {
        1
    } else {
        256 * byte_range((width - 1) as nat)
    }
}

proof fn lemma_le_round_trip(n: nat, width: nat)
    requires
        n < byte_range(width),
    ensures
        le_bytes(n, width).len() == width,
        le_value(le_bytes(n, width)) == n,
    decreases width,
{
    if width > 0 {
        lemma_le_round_trip(n / 256, (width - 1) as nat);
        assert(le_bytes(n, width).drop_first() =~= le_bytes(n / 256, (width - 1) as nat));
    }
}

proof fn lemma_byte_ranges()
    ensures
        byte_range(2) == 0x1_0000,
        byte_range(4) == 0x1_0000_0000,
        byte_range(8) == 0x1_0000_0000_0000_0000,
{
    reveal_with_fuel(byte_range, 9);
}

/// Reading an integer gives back what was written, whatever follows it.
pub proof fn lemma_varint_round_trip(n: nat, rest: Seq<u8>)
    requires
        n <= u64::MAX,
    ensures
        read_varint(varint(n) + rest) == Some((n, rest)),
        0 < varint(n).len() <= 9,
{
    lemma_byte_ranges();
    let s = varint(n) + rest;
    if n < 251 {
        assert(s.skip(1) =~= rest);
    } else {
        let width: nat = if n < 0x1_0000 {
            2
        } else if n < 0x1_0000_0000 {
            4
        } else {
            8
        };
        lemma_le_round_trip(n, width);
        assert(s[0] == varint(n)[0]);
        assert(s.subrange(1, 1 + width as int) =~= le_bytes(n, width));
        assert(s.skip(1 + width as int) =~= rest);
    }
}

/// Reading a byte string gives back what was written, whatever follows it.
pub proof fn lemma_blob_round_trip(data: Seq<u8>, rest: Seq<u8>)
    requires
        data.len() <= u64::MAX,
    ensures
        read_blob(blob(data) + rest) == Some((data, rest)),
{
    lemma_varint_round_trip(data.len(), data + rest);
    assert(blob(data) + rest =~= varint(data.len()) + (data + rest));
    assert((data + rest).take(data.len() as int) =~= data);
    assert((data + rest).skip(data.len() as int) =~= rest);
}

proof fn lemma_listed_round_trip(e: (Seq<char>, u64), rest: Seq<u8>)
    requires
        encode_utf8(e.0).len() <= u64::MAX,
    ensures
        read_listed(listed(e) + rest) == Some((e, rest)),
{
    broadcast use {encode_utf8_valid_utf8, encode_utf8_decode_utf8};

    let path = encode_utf8(e.0);
    lemma_blob_round_trip(path, varint(e.1 as nat) + rest);
    lemma_varint_round_trip(e.1 as nat, rest);
    assert(listed(e) + rest =~= blob(path) + (varint(e.1 as nat) + rest));
}

proof fn lemma_listed_all_round_trip(es: Seq<(Seq<char>, u64)>, rest: Seq<u8>)
    requires
        listed_all(es).len() <= u64::MAX,
    ensures
        read_listed_all(listed_all(es) + rest, es.len()) == Some((es, rest)),
    decreases es.len(),
{
    if es.len() == 0 {
        assert(listed_all(es) + rest =~= rest);
        assert(es =~= Seq::empty());
    } else {
        let tail = es.drop_first();
        let s = listed_all(tail) + rest;
        lemma_listed_all_round_trip(tail, rest);
        lemma_listed_round_trip(es[0], s);
        assert(listed_all(es) + rest =~= listed(es[0]) + s);
        lemma_read_first(listed(es[0]) + s, es[0], s, tail, rest);
        assert(seq![es[0]] + tail =~= es);
    }
}

proof fn lemma_read_first(
    s: Seq<u8>,
    e: (Seq<char>, u64),
    after_first: Seq<u8>,
    es: Seq<(Seq<char>, u64)>,
    rest: Seq<u8>,
)
    requires
        read_listed(s) == Some((e, after_first)),
        read_listed_all(after_first, es.len()) == Some((es, rest)),
    ensures
        read_listed_all(s, es.len() + 1) == Some((seq![e] + es, rest)),
{
}

/// Reading a list of files gives back what was written, whatever follows it.
pub proof fn lemma_listing_round_trip(es: Seq<(Seq<char>, u64)>, rest: Seq<u8>)
    requires
        listing(es).len() <= u64::MAX,
    ensures
        read_listing(listing(es) + rest) == Some((es, rest)),
{
    lemma_count_bound(es);
    lemma_varint_round_trip(es.len(), listed_all(es) + rest);
    lemma_listed_all_round_trip(es, rest);
    assert(listing(es) + rest =~= varint(es.len()) + (listed_all(es) + rest));
}

proof fn lemma_count_bound(es: Seq<(Seq<char>, u64)>)
    ensures
        es.len() <= listed_all(es).len(),
    decreases es.len(),
{
    if es.len() > 0 {
        lemma_count_bound(es.drop_first());
        lemma_varint_round_trip(es[0].1 as nat, Seq::empty());
    }
}

/// Listed files by their characters and sizes.
pub open spec fn listed_view(es: Seq<(String, u64)>) -> Seq<(Seq<char>, u64)> {
    es.map_values(|e: (String, u64)| (e.0@, e.1))
}

/// A tag followed by one byte string, and nothing else.
pub open spec fn tagged_blob(s: Seq<u8>) -> Option<(u32, Seq<u8>)> {
    match read_tag(s) {
        Some((tag, rest)) => match whole(read_blob(rest)) {
            Some(data) => Some((tag, data)),
            None => None,
        },
        None => None,
    }
}

/// A tag followed by exactly 32 bytes.
pub open spec fn tagged_hash(s: Seq<u8>) -> Option<(u32, Seq<u8>)> {
    match read_tag(s) {
        Some((tag, rest)) if rest.len() == 32 => Some((tag, rest)),
        _ => None,
    }
}

/// A tag followed by one list of files, and nothing else.
pub open spec fn tagged_listing(s: Seq<u8>) -> Option<(u32, Seq<(Seq<char>, u64)>)> {
    match read_tag(s) {
        Some((tag, rest)) => match whole(read_listing(rest)) {
            Some(es) => Some((tag, es)),
            None => None,
        },
        None => None,
    }
}

/// `bincode::Options::serialize` of a `u32` under a size limit: the integer's
/// variable-length bytes, or an error where they exceed the limit.
#[verifier::external_body]
pub(crate) fn put_tag(tag: u32, limit: u64) -> (r: Result<Vec<u8>, Box<bincode::ErrorKind>>)
    ensures
        match r {
            Ok(out) => out@ == varint(tag as nat) && out@.len() <= limit,
            Err(_) => varint(tag as nat).len() > limit,
        },
{
    bincode::options().with_limit(limit).serialize(&tag)
}

/// `bincode::Options::serialize` of a `u32` and a byte slice under a size
/// limit: the integer, then the length-prefixed bytes, or an error where they
/// exceed the limit.
#[verifier::external_body]
pub(crate) fn put_blob(tag: u32, data: &[u8], limit: u64) -> (r: Result<
    Vec<u8>,
    Box<bincode::ErrorKind>,
>)
    ensures
        match r {
            Ok(out) => out@ == varint(tag as nat) + blob(data@) && out@.len() <= limit,
            Err(_) => (varint(tag as nat) + blob(data@)).len() > limit,
        },
{
    bincode::options().with_limit(limit).serialize(&(tag, data))
}

/// `bincode::Options::serialize` of a `u32` and a 32-byte array under a size
/// limit: the integer, then the bytes as they are, or an error where they
/// exceed the limit.
#[verifier::external_body]
pub(crate) fn put_hash(tag: u32, hash: &[u8; 32], limit: u64) -> (r: Result<
    Vec<u8>,
    Box<bincode::ErrorKind>,
>)
    ensures
        match r {
            Ok(out) => out@ == varint(tag as nat) + hash@ && out@.len() <= limit,
            Err(_) => (varint(tag as nat) + hash@).len() > limit,
        },
{
    bincode::options().with_limit(limit).serialize(&(tag, hash))
}

/// `bincode::Options::serialize` of a `u32` and a list of texts with sizes
/// under a size limit: the integer, then the number of items, then each
/// length-prefixed UTF-8 text with its size, or an error where they exceed the
/// limit.
#[verifier::external_body]
pub(crate) fn put_listing(tag: u32, entries: &Vec<(String, u64)>, limit: u64) -> (r: Result<
    Vec<u8>,
    Box<bincode::ErrorKind>,
>)
    ensures
        match r {
            Ok(out) => out@ == varint(tag as nat) + listing(listed_view(entries@)) && out@.len()
                <= limit,
            Err(_) => (varint(tag as nat) + listing(listed_view(entries@))).len() > limit,
        },
{
    bincode::options().with_limit(limit).serialize(&(tag, entries))
}

/// What `bincode` says of bytes that begin with no tag.
pub uninterp spec fn tag_failure(body: Seq<u8>) -> Seq<char>;

/// What `bincode` says of bytes that are not exactly a tag.
pub uninterp spec fn only_tag_failure(body: Seq<u8>) -> Seq<char>;

/// What `bincode` says of bytes that are not exactly a tag and a byte string,
/// where an index has `bits` bits: a length beyond that has words of its own.
pub uninterp spec fn blob_failure(body: Seq<u8>, bits: u32) -> Seq<char>;

/// What `bincode` says of bytes that are not exactly a tag and 32 bytes.
pub uninterp spec fn hash_failure(body: Seq<u8>) -> Seq<char>;

/// What `bincode` says of bytes that are not exactly a tag and a list of files,
/// where an index has `bits` bits.
pub uninterp spec fn listing_failure(body: Seq<u8>, bits: u32) -> Seq<char>;

/// `bincode::Options::deserialize` of a `u32` with trailing bytes allowed: the
/// integer at the front, or what the error says where there is none of 32 bits.
#[verifier::external_body]
pub(crate) fn get_tag(body: &[u8]) -> (r: Result<u32, String>)
    ensures
        match r {
            Ok(tag) => read_tag(body@) matches Some((n, _)) && n == tag,
            Err(why) => read_tag(body@) is None && why@ == tag_failure(body@),
        },
{
    match bincode::options().allow_trailing_bytes().deserialize(body) {
        Ok(v) => Ok(v),
        Err(e) => Err(e.to_string()),
    }
}

/// `bincode::Options::deserialize` of a `u32`: the integer, or what the error says
/// where the bytes are not exactly one integer of 32 bits.
#[verifier::external_body]
pub(crate) fn get_only_tag(body: &[u8]) -> (r: Result<u32, String>)
    ensures
        match r {
            Ok(tag) => whole(read_tag(body@)) == Some(tag),
            Err(why) => whole(read_tag(body@)) is None && why@ == only_tag_failure(body@),
        },
{
    match bincode::options().deserialize(body) {
        Ok(v) => Ok(v),
        Err(e) => Err(e.to_string()),
    }
}

/// `bincode::Options::deserialize` of a `u32` and a `Vec<u8>`: both, or what
/// the error says where the bytes are not exactly a tag and a byte string.
#[verifier::external_body]
pub(crate) fn get_blob(body: &[u8]) -> (r: Result<(u32, Vec<u8>), String>)
    ensures
        match r {
            Ok(v) => tagged_blob(body@) == Some((v.0, v.1@)),
            Err(why) => tagged_blob(body@) is None && why@ == blob_failure(body@, usize::BITS),
        },
{
    match bincode::options().deserialize(body) {
        Ok(v) => Ok(v),
        Err(e) => Err(e.to_string()),
    }
}

/// `bincode::Options::deserialize` of a `u32` and a `[u8; 32]`: both, or what
/// the error says where the bytes are not exactly a tag and 32 bytes.
#[verifier::external_body]
pub(crate) fn get_hash(body: &[u8]) -> (r: Result<(u32, [u8; 32]), String>)
    ensures
        match r {
            Ok(v) => tagged_hash(body@) == Some((v.0, v.1@)),
            Err(why) => tagged_hash(body@) is None && why@ == hash_failure(body@),
        },
{
    match bincode::options().deserialize(body) {
        Ok(v) => Ok(v),
        Err(e) => Err(e.to_string()),
    }
}

/// `bincode::Options::deserialize` of a `u32` and a list of texts with sizes:
/// both, or what the error says where the bytes are not exactly a tag and such a
/// list.
#[verifier::external_body]
pub(crate) fn get_listing(body: &[u8]) -> (r: Result<(u32, Vec<(String, u64)>), String>)
    ensures
        match r {
            Ok(v) => tagged_listing(body@) == Some((v.0, listed_view(v.1@))),
            Err(why) => tagged_listing(body@) is None && why@ == listing_failure(body@, usize::BITS),
        },
{
    match bincode::options().deserialize(body) {
        Ok(v) => Ok(v),
        Err(e) => Err(e.to_string()),
    }
}

/// Integers on the wire: up to 250 in one byte; above that behind 251, 252 or 253
/// in two, four or eight bytes, the least significant first. Each is read back
/// wherever it stands, also where fewer bytes would do.
pub proof fn law_integers(n: nat, a: u8, b: u8, rest: Seq<u8>)
    requires
        n <= u64::MAX,
    ensures
        n <= 250 ==> varint(n) == seq![n as u8],
        250 < n <= 0xffff ==> varint(n) == seq![251u8, (n % 256) as u8, (n / 256) as u8],
        0xffff < n <= 0xffff_ffff ==> varint(n) == seq![
            252u8,
            (n % 256) as u8,
            (n / 256 % 256) as u8,
            (n / 256 / 256 % 256) as u8,
            (n / 256 / 256 / 256) as u8,
        ],
        n > 0xffff_ffff ==> varint(n).len() == 9 && varint(n)[0] == 253 && le_value(
            varint(n).skip(1),
        ) == n,
        read_varint(varint(n) + rest) == Some((n, rest)),
        read_varint(seq![251u8, a, b] + rest) == Some((a as nat + 256 * b as nat, rest)),
        a >= 254 ==> read_varint(seq![a] + rest) is None,
{
    lemma_varint_round_trip(n, rest);
    lemma_byte_ranges();
    reveal_with_fuel(le_bytes, 5);
    reveal_with_fuel(le_value, 3);
    if 250 < n <= 0xffff {
        assert(varint(n) =~= seq![251u8, (n % 256) as u8, (n / 256) as u8]);
    }
    if 0xffff < n <= 0xffff_ffff {
        assert(varint(n) =~= seq![
            252u8,
            (n % 256) as u8,
            (n / 256 % 256) as u8,
            (n / 256 / 256 % 256) as u8,
            (n / 256 / 256 / 256) as u8,
        ]);
    }
    if n > 0xffff_ffff {
        lemma_le_round_trip(n, 8);
        assert(varint(n).skip(1) =~= le_bytes(n, 8));
    }
    let s = seq![251u8, a, b] + rest;
    assert(s.subrange(1, 3) =~= seq![a, b]);
    assert(seq![a, b].drop_first() =~= seq![b]);
    assert(seq![b].drop_first() =~= Seq::empty());
    assert(le_value(seq![a, b]) == a as nat + 256 * b as nat);
    assert(s.skip(3) =~= rest);
}

/// A byte string is its length and its bytes; a list of files is their number and
/// then each one's path in UTF-8 as a byte string and its size.
pub proof fn law_strings_and_lists(
    bytes: Seq<u8>,
    es: Seq<(Seq<char>, u64)>,
    e: (Seq<char>, u64),
)
    ensures
        blob(bytes) == varint(bytes.len()) + bytes,
        listing(Seq::empty()) == varint(0),
        listing(es) == varint(es.len()) + listed_all(es),
        listed_all(seq![e] + es) == varint(encode_utf8(e.0).len()) + encode_utf8(e.0) + varint(
            e.1 as nat,
        ) + listed_all(es),
{
    assert(listing(Seq::empty()) =~= varint(0));
    assert((seq![e] + es).drop_first() =~= es);
    assert(listed_all(seq![e] + es) =~= varint(encode_utf8(e.0).len()) + encode_utf8(e.0) + varint(
        e.1 as nat,
    ) + listed_all(es));
}

} // verus!
