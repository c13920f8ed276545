//! Lookup of the depth map that the depth model computed for the current
//! image. The map is cached under a key derived from the image path and a
//! digest of the geometry adjustments; the key is computed exactly as the
//! depth-mask generator computes it, so that a stale map can be told apart.
use vstd::prelude::*;
use crate::error::DepthOfFieldError;
use std::collections::hash_map::DefaultHasher;
use std::hash::{Hash, Hasher};
use vstd::std_specs::hash::DefaultHasherAdditionalSpecFns;

verus! {

/// The BLAKE3 hash (32 bytes) of `input`, as `blake3::hash` computes it.
pub uninterp spec fn blake3_digest(input: Seq<u8>) -> Seq<u8>;

/// Calls `blake3::hash`, the default 32-byte BLAKE3 hash of `input`.
/// Claimed: the result is the 32 bytes of the hash of exactly `input`.
#[verifier::external_body]
fn blake3_hash(input: &[u8]) -> (digest: [u8; 32])
    ensures
        digest@ == blake3_digest(input@),
{
    *blake3::hash(input).as_bytes()
}

/// The lowercase hexadecimal digit of `v` (0 to 15).
pub open spec fn hex_digit(v: int) -> char {
    if v < 10 {
        (48 + v) as char
    } else {
        (87 + v) as char
    }
}

/// Lowercase hexadecimal encoding: two digits per byte, high nibble first.
pub open spec fn lower_hex(bytes: Seq<u8>) -> Seq<char> {
    Seq::new(
        2 * bytes.len(),
        |i: int|
            if i % 2 == 0 {
                hex_digit(bytes[i / 2] as int / 16)
            } else {
                hex_digit(bytes[i / 2] as int % 16)
            },
    )
}

/// The value of a lowercase hexadecimal digit.
pub open spec fn hex_value(c: char) -> int {
    if (c as int) < 97 {
        c as int - 48
    } else {
        c as int - 87
    }
}

/// Lowercase hex can be decoded: it has two digits per byte, each a digit
/// `0`-`9` or `a`-`f`, and byte `i` is sixteen times the value of digit `2i`
/// plus the value of digit `2i + 1`.
pub proof fn lemma_lower_hex_decodes(bytes: Seq<u8>)
    ensures
        lower_hex(bytes).len() == 2 * bytes.len(),
        forall|k: int| 0 <= k < 2 * bytes.len() ==> {
            let c = #[trigger] lower_hex(bytes)[k] as int;
            (48 <= c <= 57) || (97 <= c <= 102)
        },
        forall|i: int| 0 <= i < bytes.len() ==> bytes[i] == 16 * hex_value(#[trigger] lower_hex(bytes)[2 * i])
            + hex_value(lower_hex(bytes)[2 * i + 1]),
{
    let h = lower_hex(bytes);
    assert forall|i: int| 0 <= i < bytes.len() implies bytes[i] == 16 * hex_value(#[trigger] lower_hex(bytes)[2 * i])
        + hex_value(lower_hex(bytes)[2 * i + 1]) by {
        assert((2 * i) / 2 == i && (2 * i + 1) / 2 == i && (2 * i) % 2 == 0 && (2 * i + 1) % 2 == 1);
    }
    assert forall|k: int| 0 <= k < 2 * bytes.len() implies {
        let c = #[trigger] lower_hex(bytes)[k] as int;
        (48 <= c <= 57) || (97 <= c <= 102)
    } by {
        assert(0 <= k / 2 < bytes.len());
    }
}

/// The one-character text of the lowercase hexadecimal digit `v`.
fn hex_digit_text(v: u8) -> (text: &'static str)
    requires
        v < 16,
    ensures
        text@ == seq![hex_digit(v as int)],
{
    match v {
        0 => {
            proof {
                reveal_strlit("0");
            }
            "0"
        },
        1 => {
            proof {
                reveal_strlit("1");
            }
            "1"
        },
        2 => {
            proof {
                reveal_strlit("2");
            }
            "2"
        },
        3 => {
            proof {
                reveal_strlit("3");
            }
            "3"
        },
        4 => {
            proof {
                reveal_strlit("4");
            }
            "4"
        },
        5 => {
            proof {
                reveal_strlit("5");
            }
            "5"
        },
        6 => {
            proof {
                reveal_strlit("6");
            }
            "6"
        },
        7 => {
            proof {
                reveal_strlit("7");
            }
            "7"
        },
        8 => {
            proof {
                reveal_strlit("8");
            }
            "8"
        },
        9 => {
            proof {
                reveal_strlit("9");
            }
            "9"
        },
        10 => {
            proof {
                reveal_strlit("a");
            }
            "a"
        },
        11 => {
            proof {
                reveal_strlit("b");
            }
            "b"
        },
        12 => {
            proof {
                reveal_strlit("c");
            }
            "c"
        },
        13 => {
            proof {
                reveal_strlit("d");
            }
            "d"
        },
        14 => {
            proof {
                reveal_strlit("e");
            }
            "e"
        },
        _ => {
            proof {
                reveal_strlit("f");
            }
            "f"
        },
    }
}

/// Lowercase hexadecimal text of `bytes`, two digits per byte, high nibble first.
pub fn to_lower_hex(bytes: &[u8]) -> (hex: String)
    ensures
        hex@ == lower_hex(bytes@),
{
    let n: usize = bytes.len();
    let mut hex = String::new();
    let mut i: usize = 0;
    while i < n
        invariant
            n == bytes@.len(),
            i <= n,
            hex@ == lower_hex(bytes@.take(i as int)),
        decreases n - i,
    {
        let b: u8 = bytes[i];
        hex.append(hex_digit_text(b / 16));
        hex.append(hex_digit_text(b % 16));
        proof {
            assert(bytes@.take(i as int) =~= bytes@.take(i as int + 1).take(i as int));
        }
        i = i + 1;
        assert(hex@ =~= lower_hex(bytes@.take(i as int)));
    }
    assert(bytes@.take(n as int) =~= bytes@);
    hex
}

/// The eight little-endian bytes of `v`.
pub open spec fn le_bytes(v: u64) -> Seq<u8> {
    seq![
        (v % 0x100) as u8,
        ((v / 0x100) % 0x100) as u8,
        ((v / 0x1_0000) % 0x100) as u8,
        ((v / 0x100_0000) % 0x100) as u8,
        ((v / 0x1_0000_0000) % 0x100) as u8,
        ((v / 0x100_0000_0000) % 0x100) as u8,
        ((v / 0x1_0000_0000_0000) % 0x100) as u8,
        ((v / 0x100_0000_0000_0000) % 0x100) as u8,
    ]
}

/// The write log of a `DefaultHasher` (vstd models a hasher by the byte
/// strings written to it) after `Hash for str` hashes the text `s` into a
/// hasher whose log was `writes`.
pub uninterp spec fn str_hash_writes(writes: Seq<Seq<u8>>, s: Seq<char>) -> Seq<Seq<u8>>;

/// Calls `<str as Hash>::hash` with a `DefaultHasher`. Claimed: the
/// hasher's write log afterwards depends on its log before and on the text
/// alone (hashing a `str` writes bytes determined by the text).
#[verifier::external_body]
fn hash_str(hasher: &mut DefaultHasher, s: &str)
    ensures
        final(hasher)@ == str_hash_writes(old(hasher)@, s@),
{
    s.hash(hasher)
}

/// One geometry adjustment: its name, and the JSON text of its value where
/// the adjustments set it.
pub struct GeometryValue {
    pub key: String,
    pub value: Option<String>,
}

/// The write log after hashing, in order, the name and then the value text of
/// every geometry adjustment that is set; adjustments that are not set are skipped.
pub open spec fn geometry_writes(entries: Seq<GeometryValue>) -> Seq<Seq<u8>>
    decreases entries.len(),
{
    if entries.len() == 0 {
        Seq::empty()
    } else {
        let prev = geometry_writes(entries.drop_last());
        let e = entries.last();
        match e.value {
            Some(v) => str_hash_writes(str_hash_writes(prev, e.key@), v@),
            None => prev,
        }
    }
}

/// The digest of the geometry adjustments: a fresh `DefaultHasher` fed with
/// `geometry_writes`, then finished.
pub open spec fn geometry_digest_of(entries: Seq<GeometryValue>) -> u64 {
    DefaultHasher::spec_finish(geometry_writes(entries))
}

/// Hashes the geometry adjustments that are set, name then value text, in order.
pub fn geometry_digest(entries: &Vec<GeometryValue>) -> (digest: u64)
    ensures
        digest == geometry_digest_of(entries@),
{
    let mut hasher = DefaultHasher::new();
    let n: usize = entries.len();
    let mut i: usize = 0;
    while i < n
        invariant
            n == entries@.len(),
            i <= n,
            hasher@ == geometry_writes(entries@.take(i as int)),
        decreases n - i,
    {
        let e = &entries[i];
        proof {
            assert(entries@.take(i as int + 1).drop_last() =~= entries@.take(i as int));
        }
        match &e.value {
            Some(v) => {
                hash_str(&mut hasher, e.key.as_str());
                hash_str(&mut hasher, v.as_str());
            },
            None => {},
        }
        i = i + 1;
    }
    assert(entries@.take(n as int) =~= entries@);
    hasher.finish()
}

/// Every geometry adjustment that is set is hashed, whatever its value text
/// (including the text `null`): appending a set adjustment appends exactly
/// the hashing of its name and then of its value text; appending an unset one
/// leaves the log unchanged.
pub proof fn lemma_geometry_writes_append(entries: Seq<GeometryValue>, e: GeometryValue)
    ensures
        e.value is Some ==> geometry_writes(entries.push(e)) == str_hash_writes(
            str_hash_writes(geometry_writes(entries), e.key@),
            e.value->0@,
        ),
        e.value is None ==> geometry_writes(entries.push(e)) == geometry_writes(entries),
{
    assert(entries.push(e).drop_last() =~= entries);
}

/// No adjustment is set: the digest is that of a fresh hasher.
pub proof fn lemma_geometry_writes_empty()
    ensures
        geometry_writes(Seq::<GeometryValue>::empty()) == Seq::<Seq<u8>>::empty(),
{
}

/// Two lists of geometry adjustments agree: the same adjustments are set, with
/// the same names and value texts, in the same order (what is not set, and
/// every other adjustment, is free to differ).
pub open spec fn same_geometry(e1: Seq<GeometryValue>, e2: Seq<GeometryValue>) -> bool {
    &&& e1.len() == e2.len()
    &&& forall|i: int| #![trigger e1[i], e2[i]]
        0 <= i < e1.len() ==> {
            &&& (e1[i].value is Some <==> e2[i].value is Some)
            &&& (e1[i].value is Some ==> e1[i].key@ == e2[i].key@ && e1[i].value->0@ == e2[i].value->0@)
        }
}

/// Adjustments other than the set geometry adjustments never change the digest.
pub proof fn lemma_geometry_digest_ignores_other_adjustments(e1: Seq<GeometryValue>, e2: Seq<GeometryValue>)
    requires
        same_geometry(e1, e2),
    ensures
        geometry_writes(e1) == geometry_writes(e2),
        geometry_digest_of(e1) == geometry_digest_of(e2),
    decreases e1.len(),
{
    if e1.len() > 0 {
        let n = e1.len() - 1;
        assert(e1[n] == e1.last() && e2[n] == e2.last());
        assert(same_geometry(e1.drop_last(), e2.drop_last())) by {
            assert forall|i: int| 0 <= i < e1.drop_last().len() implies
                (e1.drop_last()[i].value is Some <==> e2.drop_last()[i].value is Some)
                && (e1.drop_last()[i].value is Some ==> e1.drop_last()[i].key@ == e2.drop_last()[i].key@
                    && e1.drop_last()[i].value->0@ == e2.drop_last()[i].value->0@) by {
                assert(e1.drop_last()[i] == e1[i] && e2.drop_last()[i] == e2[i]);
            }
        }
        lemma_geometry_digest_ignores_other_adjustments(e1.drop_last(), e2.drop_last());
    }
}

/// Adjustments other than the set geometry adjustments never change the cache
/// key the lookup expects, so they never change which depth map is found.
pub proof fn lemma_cache_key_ignores_other_adjustments(path: Seq<char>, e1: Seq<GeometryValue>, e2: Seq<GeometryValue>)
    requires
        same_geometry(e1, e2),
    ensures
        cache_key(path, geometry_digest_of(e1)) == cache_key(path, geometry_digest_of(e2)),
{
    lemma_geometry_digest_ignores_other_adjustments(e1, e2);
}

/// The cache key of the depth map of the image at `path` under geometry
/// adjustments whose digest is `geometry_digest`: the lowercase hex of the
/// BLAKE3 hash of the path's UTF-8 bytes followed by the digest's
/// little-endian bytes.
pub open spec fn cache_key(path: Seq<char>, geometry_digest: u64) -> Seq<char> {
    lower_hex(blake3_digest(cache_key_input(path, geometry_digest)))
}

/// The bytes hashed for a cache key: the path's UTF-8 bytes, then the
/// digest's eight little-endian bytes.
pub open spec fn cache_key_input(path: Seq<char>, geometry_digest: u64) -> Seq<u8> {
    vstd::utf8::encode_utf8(path) + le_bytes(geometry_digest)
}

/// The value of eight little-endian bytes.
pub open spec fn le_value(b: Seq<u8>) -> int {
    b[0] + 0x100 * b[1] + 0x1_0000 * b[2] + 0x100_0000 * b[3] + 0x1_0000_0000 * b[4]
        + 0x100_0000_0000 * b[5] + 0x1_0000_0000_0000 * b[6] + 0x100_0000_0000_0000 * b[7]
}

/// The eight bytes of a digest give the digest back.
pub proof fn lemma_le_bytes_round_trip(v: u64)
    ensures
        le_bytes(v).len() == 8,
        le_value(le_bytes(v)) == v,
{
    assert(v == (v % 0x100) + 0x100 * ((v / 0x100) % 0x100) + 0x1_0000 * ((v / 0x1_0000) % 0x100)
        + 0x100_0000 * ((v / 0x100_0000) % 0x100) + 0x1_0000_0000 * ((v / 0x1_0000_0000) % 0x100)
        + 0x100_0000_0000 * ((v / 0x100_0000_0000) % 0x100) + 0x1_0000_0000_0000 * ((v
        / 0x1_0000_0000_0000) % 0x100) + 0x100_0000_0000_0000 * ((v / 0x100_0000_0000_0000) % 0x100))
        by (bit_vector);
}

/// The key hashes the path's bytes verbatim: the hashed input starts with
/// exactly the path's UTF-8 bytes, which decode back to the path, and ends
/// with the eight bytes of the digest.
pub proof fn lemma_cache_key_hashes_path_verbatim(path: Seq<char>, geometry_digest: u64)
    ensures
        cache_key(path, geometry_digest) == lower_hex(blake3_digest(cache_key_input(path, geometry_digest))),
        cache_key_input(path, geometry_digest).len() == vstd::utf8::encode_utf8(path).len() + 8,
        cache_key_input(path, geometry_digest).take(vstd::utf8::encode_utf8(path).len() as int)
            == vstd::utf8::encode_utf8(path),
        vstd::utf8::decode_utf8(
            cache_key_input(path, geometry_digest).take(vstd::utf8::encode_utf8(path).len() as int),
        ) == path,
        le_value(cache_key_input(path, geometry_digest).skip(vstd::utf8::encode_utf8(path).len() as int))
            == geometry_digest,
{
    let b = vstd::utf8::encode_utf8(path);
    let input = cache_key_input(path, geometry_digest);
    assert(input.take(b.len() as int) =~= b);
    assert(input.skip(b.len() as int) =~= le_bytes(geometry_digest));
    vstd::utf8::encode_utf8_decode_utf8(path);
    lemma_le_bytes_round_trip(geometry_digest);
}

/// Different paths or digests never give the same hashed input.
pub proof fn lemma_cache_key_input_injective(p1: Seq<char>, d1: u64, p2: Seq<char>, d2: u64)
    requires
        cache_key_input(p1, d1) == cache_key_input(p2, d2),
    ensures
        p1 == p2,
        d1 == d2,
{
    lemma_cache_key_hashes_path_verbatim(p1, d1);
    lemma_cache_key_hashes_path_verbatim(p2, d2);
}

/// Computes the cache key of the depth map for `path` and `geometry_digest`.
pub fn depth_cache_key(path: &str, geometry_digest: u64) -> (key: String)
    ensures
        key@ == cache_key(path@, geometry_digest),
{
    let path_bytes: &[u8] = path.as_bytes();
    let n: usize = path_bytes.len();
    let mut input: Vec<u8> = Vec::new();
    let mut i: usize = 0;
    while i < n
        invariant
            n == path_bytes@.len(),
            i <= n,
            input@ == path_bytes@.subrange(0, i as int),
        decreases n - i,
    {
        input.push(path_bytes[i]);
        i = i + 1;
        assert(input@ =~= path_bytes@.subrange(0, i as int));
    }
    assert(input@ =~= path_bytes@);
    let v = geometry_digest;
    input.push((v % 0x100) as u8);
    input.push(((v / 0x100) % 0x100) as u8);
    input.push(((v / 0x1_0000) % 0x100) as u8);
    input.push(((v / 0x100_0000) % 0x100) as u8);
    input.push(((v / 0x1_0000_0000) % 0x100) as u8);
    input.push(((v / 0x100_0000_0000) % 0x100) as u8);
    input.push(((v / 0x1_0000_0000_0000) % 0x100) as u8);
    input.push(((v / 0x100_0000_0000_0000) % 0x100) as u8);
    assert(input@ =~= cache_key_input(path@, geometry_digest));
    let digest = blake3_hash(input.as_slice());
    to_lower_hex(digest.as_slice())
}

/// A depth map that the depth model computed, with the key it was cached under.
pub struct CachedDepthMap {
    /// Cache key of the image and geometry the map was computed for.
    pub path_hash: String,
    /// One 8-bit depth sample per pixel, row-major.
    pub depth_image: Vec<u8>,
    /// Width and height of the depth map.
    pub original_size: (u32, u32),
}

/// What the AI state holds when it is consulted for a depth map.
pub enum AiStateSlot {
    /// The state could not be locked; holds the lock error's text.
    Unavailable(String),
    /// No AI state has been created yet.
    Empty,
    /// The AI state, with the depth map it caches, if any.
    Ready { depth_map: Option<CachedDepthMap> },
}

/// A cached depth map together with the key expected for the current image.
pub struct DepthMapLookup {
    pub depth_map: CachedDepthMap,
    /// The key computed for the current image path and geometry.
    pub expected_key: String,
    /// Whether the map was cached under exactly that key; a map cached under
    /// another key (other geometry) is still used.
    pub key_matched: bool,
}

/// Finds the cached depth map for the image at `path` under the `geometry`
/// adjustments. Without a path the lookup fails; otherwise the key is computed
/// and the AI state consulted:
/// a map that is there is returned whether or not its key matches.
pub fn get_cached_depth_map(path: Option<&str>, geometry: &Vec<GeometryValue>, ai_state: AiStateSlot) -> (r: Result<Option<DepthMapLookup>, DepthOfFieldError>)
    ensures
        path is None ==> r == Err::<Option<DepthMapLookup>, DepthOfFieldError>(DepthOfFieldError::UnresolvedImagePath),
        path is Some ==> match ai_state {
            AiStateSlot::Unavailable(detail) => r == Err::<Option<DepthMapLookup>, DepthOfFieldError>(
                DepthOfFieldError::StateLocked(detail),
            ),
            AiStateSlot::Empty => r == Ok::<Option<DepthMapLookup>, DepthOfFieldError>(None),
            AiStateSlot::Ready { depth_map: None } => r == Ok::<Option<DepthMapLookup>, DepthOfFieldError>(None),
            AiStateSlot::Ready { depth_map: Some(map) } => r matches Ok(Some(found)) && {
                &&& found.depth_map == map
                &&& found.expected_key@ == cache_key(path->0@, geometry_digest_of(geometry@))
                &&& found.key_matched == (map.path_hash@ == found.expected_key@)
            },
        },
{
    let path = match path {
        Some(p) => p,
        None => return Err(DepthOfFieldError::UnresolvedImagePath),
    };
    let digest = geometry_digest(geometry);
    let expected_key = depth_cache_key(path, digest);
    match ai_state {
        AiStateSlot::Unavailable(detail) => Err(DepthOfFieldError::StateLocked(detail)),
        AiStateSlot::Empty => Ok(None),
        AiStateSlot::Ready { depth_map: None } => Ok(None),
        AiStateSlot::Ready { depth_map: Some(map) } => {
            let key_matched = map.path_hash == expected_key;
            Ok(Some(DepthMapLookup { depth_map: map, expected_key, key_matched }))
        },
    }
}

/// The depth map that the effect needs: a missing one is an error.
pub fn require_depth_map(lookup: Option<DepthMapLookup>) -> (r: Result<DepthMapLookup, DepthOfFieldError>)
    ensures
        match lookup {
            Some(found) => r == Ok::<DepthMapLookup, DepthOfFieldError>(found),
            None => r == Err::<DepthMapLookup, DepthOfFieldError>(DepthOfFieldError::NoCachedDepthMap),
        },
{
    match lookup {
        Some(found) => Ok(found),
        None => Err(DepthOfFieldError::NoCachedDepthMap),
    }
}

} // verus!
