//! CryEngine TIFF files: the special-instructions text kept in the IPTC block
//! of a Photoshop image resource (`8BIM`, id 0x0404), and writing a
//! deflate-compressed RGBA8 TIFF that carries such a block.

use std::io::Write;
use flate2::Compression;
use flate2::write::ZlibEncoder;
use vstd::prelude::*;
use vstd::string::StringSliceAdditionalSpecFns;
use crate::byteio::{
    be_u16_of, be_u32_of, be_bytes_u16, be_bytes_u32, le_bytes_u16, le_bytes_u32, push_all,
    push_u16_be, push_u16_le, push_u32_be, push_u32_le, read_be_u16, read_be_u32,
    lemma_be_u16_round_trip, lemma_be_u32_round_trip,
};
use crate::text::{trim_chars, utf8_lossy};
use crate::iptc_header::{
    combined_fields, iptc_parse, IptcHeader, FIELD_SPECIAL_INSTRUCTIONS, record_bytes,
    map_records, is_key_order, entries_view, key_records, lemma_iptc_round_trip,
};

verus! {

broadcast use vstd::std_specs::hash::group_hash_axioms;

/// Whether the Photoshop resource marker `8BIM` starts at `i`.
pub open spec fn marker_at(data: Seq<u8>, i: int) -> bool {
    &&& 0 <= i
    &&& i + 4 <= data.len()
    &&& data[i] == 0x38
    &&& data[i + 1] == 0x42
    &&& data[i + 2] == 0x49
    &&& data[i + 3] == 0x4D
}

/// The first position at or after `i` where the marker starts.
pub open spec fn find_marker(data: Seq<u8>, i: int) -> Option<int>
    decreases data.len() - i,
{
    if i < 0 || i + 4 > data.len() {
        None
    } else if marker_at(data, i) {
        Some(i)
    } else {
        find_marker(data, i + 1)
    }
}

/// What the walk over consecutive image resources from `curr` finds:
/// `Some(Some(text))` for the first non-empty special-instructions text of an
/// IPTC resource, `Some(None)` when the walk ends without one, and `None`
/// when a resource header runs past the end of the data.
pub open spec fn scan_resources(data: Seq<u8>, curr: int) -> Option<Option<Seq<char>>>
    decreases data.len() - curr,
{
    if curr < 0 || !(curr + 12 < data.len()) || !marker_at(data, curr) {
        Some(None)
    } else {
        let res_id = be_u16_of(data, curr + 4);
        let name_len = data[curr + 6] as int;
        let after_name = curr + 7 + name_len;
        let size_at = if after_name % 2 != 0 {
            after_name + 1
        } else {
            after_name
        };
        if size_at + 4 > data.len() {
            None
        } else {
            let block_size = be_u32_of(data, size_at) as int;
            let start = size_at + 4;
            let found = if res_id == 0x0404 && start + block_size <= data.len() {
                combined_fields(
                    iptc_parse(data.subrange(start, start + block_size)),
                    0x28,
                    seq![' '],
                )
            } else {
                Seq::empty()
            };
            if found.len() > 0 {
                Some(Some(found))
            } else {
                let next0 = start + block_size;
                let next = if next0 % 2 != 0 {
                    next0 + 1
                } else {
                    next0
                };
                if next > data.len() {
                    Some(None)
                } else {
                    scan_resources(data, next)
                }
            }
        }
    }
}

proof fn lemma_find_marker(data: Seq<u8>, i: int)
    ensures
        find_marker(data, i) matches Some(p) ==> i <= p && marker_at(data, p),
    decreases data.len() - i,
{
    if !(i < 0 || i + 4 > data.len()) && !marker_at(data, i) {
        lemma_find_marker(data, i + 1);
    }
}

/// Whether reading the special instructions of `data` stays within it.
pub open spec fn instructions_readable(data: Seq<u8>) -> bool {
    data.len() < 8 || match find_marker(data, 0) {
        None => true,
        Some(p) => scan_resources(data, p) is Some,
    }
}

/// The special-instructions text of a file: from the resources that start at
/// the first marker, empty when there is none.
pub open spec fn special_instructions(data: Seq<u8>) -> Seq<char> {
    match find_marker(data, 0) {
        None => Seq::empty(),
        Some(p) => match scan_resources(data, p) {
            Some(Some(text)) => text,
            _ => Seq::empty(),
        },
    }
}

/// Name of what `flate2`'s `ZlibEncoder` at the default compression level
/// makes of `data`: the zlib stream, or `None` when the encoder reports an
/// error. Both depend on `data` alone.
pub uninterp spec fn zlib_compressed(data: Seq<u8>) -> Option<Seq<u8>>;

/// `flate2::write::ZlibEncoder` at `Compression::default()` over a `Vec`:
/// writes `data` and finishes the stream. Whether it succeeds and what comes
/// back are named `zlib_compressed(data)`; the stream format itself, and
/// on which data the encoder reports an error, are not stated.
#[verifier::external_body]
fn zlib_compress(data: &[u8]) -> (r: Option<Vec<u8>>)
    ensures
        r is Some <==> zlib_compressed(data@) is Some,
        r matches Some(v) ==> zlib_compressed(data@) == Some(v@),
{
    let mut encoder = ZlibEncoder::new(Vec::new(), Compression::default());
    match encoder.write_all(data) {
        Ok(()) => {},
        Err(_) => return None,
    }
    encoder.finish().ok()
}

/// The Photoshop image resource that holds IPTC bytes `iptc`: marker, id
/// 0x0404, an empty name, the length, the data, and a pad byte to an even
/// length.
pub open spec fn photoshop_block(iptc: Seq<u8>) -> Seq<u8> {
    let b = seq![0x38u8, 0x42u8, 0x49u8, 0x4Du8] + be_bytes_u16(0x0404) + be_bytes_u16(0)
        + be_bytes_u32(iptc.len() as u32) + iptc;
    if b.len() % 2 != 0 {
        b.push(0)
    } else {
        b
    }
}

/// One 12-byte TIFF directory entry.
pub open spec fn tiff_tag(tag: u16, kind: u16, count: u32, value: u32) -> Seq<u8> {
    le_bytes_u16(tag) + le_bytes_u16(kind) + le_bytes_u32(count) + le_bytes_u32(value)
}

/// The 15 directory entries of a CryEngine TIFF.
pub open spec fn crytif_tags(width: u32, height: u32, strip_len: u32, ps_len: u32) -> Seq<u8> {
    let strip_off = (202 + ps_len) as u32;
    tiff_tag(256, 4, 1, width) + tiff_tag(257, 4, 1, height) + tiff_tag(258, 3, 4, 194) + tiff_tag(
        259,
        3,
        1,
        8,
    ) + tiff_tag(262, 3, 1, 2) + tiff_tag(273, 4, 1, strip_off) + tiff_tag(274, 3, 1, 1)
        + tiff_tag(277, 3, 1, 4) + tiff_tag(278, 4, 1, height) + tiff_tag(279, 4, 1, strip_len)
        + tiff_tag(284, 3, 1, 1) + tiff_tag(317, 3, 1, 1) + tiff_tag(338, 3, 1, 2) + tiff_tag(
        339,
        3,
        1,
        1,
    ) + tiff_tag(34377, 1, ps_len, 202)
}

/// Everything of a CryEngine TIFF before the Photoshop resource:
/// little-endian header, one directory of 15 entries, the end of the
/// directory chain, and four 8-bit sample sizes.
pub open spec fn crytif_prefix(width: u32, height: u32, strip_len: u32, ps_len: u32) -> Seq<u8> {
    seq![0x49u8, 0x49u8, 0x2Au8, 0u8] + le_bytes_u32(8) + le_bytes_u16(15) + crytif_tags(
        width,
        height,
        strip_len,
        ps_len,
    ) + le_bytes_u32(0) + le_bytes_u16(8) + le_bytes_u16(8) + le_bytes_u16(8) + le_bytes_u16(8)
}

/// The bytes of a CryEngine TIFF: the prefix, the Photoshop resource that
/// carries `instructions` as special instructions, then the compressed strip.
pub open spec fn crytif_bytes(width: u32, height: u32, strip: Seq<u8>, instructions: Seq<u8>) -> Seq<
    u8,
> {
    let ps = photoshop_block(record_bytes(0x28, instructions));
    crytif_prefix(width, height, strip.len() as u32, ps.len() as u32) + ps + strip
}

/// CryEngine TIFF reading and writing.
pub struct CryTifIO;

impl CryTifIO {
    fn find_marker_exec(data: &[u8]) -> (r: Option<usize>)
        ensures
            r matches Some(p) ==> find_marker(data@, 0) == Some(p as int) && p + 4 <= data@.len(),
            r is None ==> find_marker(data@, 0) is None,
    {
        proof {
            lemma_find_marker(data@, 0);
        }
        let n = data.len();
        let mut i: usize = 0;
        while i < n && n - i >= 4
            invariant
                i <= n,
                n == data@.len(),
                find_marker(data@, i as int) == find_marker(data@, 0),
            decreases n - i,
        {
            if data[i] == 0x38 && data[i + 1] == 0x42 && data[i + 2] == 0x49 && data[i + 3] == 0x4D {
                return Some(i);
            }
            i = i + 1;
        }
        None
    }

    fn scan_exec(data: &[u8], start: usize) -> (r: Option<Option<String>>)
        requires
            start <= data@.len(),
        ensures
            r matches Some(Some(s)) ==> scan_resources(data@, start as int) == Some(
                Some(s@),
            ),
            r matches Some(None) ==> scan_resources(data@, start as int) == Some(
                None::<Seq<char>>,
            ),
            r is None ==> scan_resources(data@, start as int) is None,
    {
        let n = data.len();
        let mut curr: usize = start;
        while curr < n && n - curr > 12 && data[curr] == 0x38 && data[curr + 1] == 0x42
            && data[curr + 2] == 0x49 && data[curr + 3] == 0x4D
            invariant
                curr <= n,
                n == data@.len(),
                scan_resources(data@, curr as int) == scan_resources(data@, start as int),
            decreases n - curr,
        {
            let res_id = read_be_u16(data, curr + 4);
            let name_len = data[curr + 6] as usize;
            if name_len + 11 > n - curr {
                return None;
            }
            let after_name = curr + 7 + name_len;
            let size_at = if after_name % 2 != 0 {
                after_name + 1
            } else {
                after_name
            };
            if size_at > n || n - size_at < 4 {
                return None;
            }
            let block_size = read_be_u32(data, size_at) as usize;
            let body = size_at + 4;
            let mut found = String::new();
            if res_id == 0x0404 && block_size <= n - body {
                let mut iptc = IptcHeader::new();
                iptc.parse(vstd::slice::slice_subrange(data, body, body + block_size));
                found = iptc.get_combined_fields(FIELD_SPECIAL_INSTRUCTIONS, " ");
                proof {
                    reveal_strlit(" ");
                    assert(" "@ =~= seq![' ']);
                }
            }
            if !found.as_str().is_empty() {
                return Some(Some(found));
            }
            if block_size > n - body {
                proof {
                    let next0: int = body + block_size;
                    let next: int = if next0 % 2 != 0 {
                        next0 + 1
                    } else {
                        next0
                    };
                    assert(next > n);
                    assert(scan_resources(data@, curr as int) == Some(None::<Seq<char>>));
                }
                return Some(None);
            }
            let next0 = body + block_size;
            if next0 >= n {
                proof {
                    let next: int = if next0 % 2 != 0 {
                        next0 + 1
                    } else {
                        next0 as int
                    };
                    assert(next >= n);
                    if next == n {
                        assert(scan_resources(data@, next as int) == Some(None::<Seq<char>>));
                    }
                    assert(scan_resources(data@, curr as int) == Some(None::<Seq<char>>));
                }
                return Some(None);
            }
            curr = if next0 % 2 != 0 {
                next0 + 1
            } else {
                next0
            };
        }
        Some(None)
    }

    /// Whether `read_special_instructions_from_bytes` can read `data`
    /// without running past its end.
    pub fn instructions_readable_exec(data: &[u8]) -> (r: bool)
        ensures
            r == instructions_readable(data@),
    {
        if data.len() < 8 {
            return true;
        }
        match Self::find_marker_exec(data) {
            None => true,
            Some(p) => Self::scan_exec(data, p).is_some(),
        }
    }

    /// The special-instructions text of a CryEngine TIFF file's bytes: an
    /// error for fewer than 8 bytes, else the first non-empty text found in
    /// the resources from the first `8BIM` marker (empty when none).
    pub fn read_special_instructions_from_bytes(data: &[u8]) -> (r: Result<String, String>)
        requires
            instructions_readable(data@),
        ensures
            r is Err <==> data@.len() < 8,
            r matches Ok(s) ==> s@ == special_instructions(data@),
    {
        if data.len() < 8 {
            return Err(String::from_str("TIFF file too small"));
        }
        match Self::find_marker_exec(data) {
            None => Ok(String::new()),
            Some(p) => match Self::scan_exec(data, p) {
                Some(Some(s)) => Ok(s),
                _ => Ok(String::new()),
            },
        }
    }

    /// The IPTC records of a header whose only dataset is the special
    /// instructions `text`.
    fn special_instructions_record(text: &[u8]) -> (r: Vec<u8>)
        ensures
            r@ == record_bytes(0x28, text@),
    {
        let mut iptc = IptcHeader::new();
        let entry = vstd::slice::slice_to_vec(text);
        let mut entries: Vec<Vec<u8>> = Vec::new();
        entries.push(entry);
        let ghost entries_copy = entries;
        iptc.fields.insert(FIELD_SPECIAL_INSTRUCTIONS, entries);
        let r = iptc.build_bytes();
        proof {
            let m = iptc@;
            assert(entries_view(entries_copy) =~= seq![text@]);
            assert(m =~= Map::<u8, Seq<Seq<u8>>>::empty().insert(0x28, seq![text@]));
            let order = choose|order: Seq<u8>| is_key_order(order, m) && r@ == map_records(order, m);
            lemma_single_key_order(order, m);
            assert(order =~= seq![0x28u8]);
            assert(order.drop_last() =~= Seq::<u8>::empty());
            let es = m[0x28];
            assert(es.drop_last() =~= Seq::<Seq<u8>>::empty());
            assert(es.last() == text@);
            assert(order.last() == 0x28u8);
            assert(map_records(order, m) == map_records(order.drop_last(), m) + key_records(
                0x28,
                es,
            ));
            assert(key_records(0x28, es) == key_records(0x28, es.drop_last()) + record_bytes(
                0x28,
                text@,
            ));
            assert(r@ =~= record_bytes(0x28, text@));
        }
        r
    }

    fn push_tag(out: &mut Vec<u8>, tag: u16, kind: u16, count: u32, value: u32)
        ensures
            final(out)@ == old(out)@ + tiff_tag(tag, kind, count, value),
    {
        push_u16_le(out, tag);
        push_u16_le(out, kind);
        push_u32_le(out, count);
        push_u32_le(out, value);
        assert(final(out)@ =~= old(out)@ + tiff_tag(tag, kind, count, value));
    }

    fn photoshop_data(text: &[u8]) -> (ps: Vec<u8>)
        requires
            text@.len() + 222 <= u32::MAX,
        ensures
            ps@ == photoshop_block(record_bytes(0x28, text@)),
            ps@.len() <= text@.len() + 18,
    {
        let iptc_bytes = Self::special_instructions_record(text);
        let mut ps: Vec<u8> = Vec::new();
        ps.push(0x38);
        ps.push(0x42);
        ps.push(0x49);
        ps.push(0x4D);
        push_u16_be(&mut ps, 0x0404);
        push_u16_be(&mut ps, 0);
        push_u32_be(&mut ps, iptc_bytes.len() as u32);
        push_all(&mut ps, iptc_bytes.as_slice());
        if ps.len() % 2 != 0 {
            ps.push(0);
        }
        assert(ps@ =~= photoshop_block(record_bytes(0x28, text@)));
        ps
    }

    fn push_tags(w: &mut Vec<u8>, width: u32, height: u32, strip_len: u32, ps_len: u32)
        requires
            ps_len + 202 <= u32::MAX,
        ensures
            final(w)@ == old(w)@ + crytif_tags(width, height, strip_len, ps_len),
    {
        Self::push_tag(w, 256, 4, 1, width);
        Self::push_tag(w, 257, 4, 1, height);
        Self::push_tag(w, 258, 3, 4, 194);
        Self::push_tag(w, 259, 3, 1, 8);
        Self::push_tag(w, 262, 3, 1, 2);
        Self::push_tag(w, 273, 4, 1, 202 + ps_len);
        Self::push_tag(w, 274, 3, 1, 1);
        Self::push_tag(w, 277, 3, 1, 4);
        Self::push_tag(w, 278, 4, 1, height);
        Self::push_tag(w, 279, 4, 1, strip_len);
        Self::push_tag(w, 284, 3, 1, 1);
        Self::push_tag(w, 317, 3, 1, 1);
        Self::push_tag(w, 338, 3, 1, 2);
        Self::push_tag(w, 339, 3, 1, 1);
        Self::push_tag(w, 34377, 1, ps_len, 202);
        assert(w@ =~= old(w)@ + crytif_tags(width, height, strip_len, ps_len));
    }

    fn push_prefix(w: &mut Vec<u8>, width: u32, height: u32, strip_len: u32, ps_len: u32)
        requires
            ps_len + 202 <= u32::MAX,
        ensures
            final(w)@ == old(w)@ + crytif_prefix(width, height, strip_len, ps_len),
    {
        w.push(0x49);
        w.push(0x49);
        w.push(0x2A);
        w.push(0);
        push_u32_le(w, 8);
        push_u16_le(w, 15);
        Self::push_tags(w, width, height, strip_len, ps_len);
        push_u32_le(w, 0);
        push_u16_le(w, 8);
        push_u16_le(w, 8);
        push_u16_le(w, 8);
        push_u16_le(w, 8);
        assert(w@ =~= old(w)@ + crytif_prefix(width, height, strip_len, ps_len));
    }

    /// The bytes of a CryEngine TIFF around an already compressed strip.
    pub fn assemble_crytif(
        width: u32,
        height: u32,
        compressed_strip: &[u8],
        instructions: &str,
    ) -> (r: Vec<u8>)
        requires
            instructions.spec_bytes().len() + 222 <= u32::MAX,
        ensures
            r@ == crytif_bytes(width, height, compressed_strip@, instructions.spec_bytes()),
    {
        let text = instructions.as_bytes();
        let ps = Self::photoshop_data(text);
        let ps_len = ps.len() as u32;
        let strip_len = #[verifier::truncate] (compressed_strip.len() as u32);
        let mut w: Vec<u8> = Vec::new();
        Self::push_prefix(&mut w, width, height, strip_len, ps_len);
        push_all(&mut w, ps.as_slice());
        push_all(&mut w, compressed_strip);
        assert(w@ =~= crytif_bytes(width, height, compressed_strip@, instructions.spec_bytes()));
        w
    }

    /// The bytes of a CryEngine TIFF of RGBA8 pixels, the pixels compressed
    /// into one zlib strip, with `instructions` as special instructions; `None`
    /// exactly when the compressor reports an error.
    pub fn build_crytif_rgba8(
        width: u32,
        height: u32,
        rgba_pixels: &[u8],
        instructions: &str,
    ) -> (r: Option<Vec<u8>>)
        requires
            instructions.spec_bytes().len() + 222 <= u32::MAX,
        ensures
            r is Some <==> zlib_compressed(rgba_pixels@) is Some,
            r matches Some(v) ==> v@ == crytif_bytes(
                width,
                height,
                zlib_compressed(rgba_pixels@)->0,
                instructions.spec_bytes(),
            ),
    {
        match zlib_compress(rgba_pixels) {
            Some(strip) => Some(Self::assemble_crytif(width, height, strip.as_slice(), instructions)),
            None => None,
        }
    }
}


/// The resource the writer builds, found at an even offset `head.len()`
/// after any bytes `head`, yields the special-instructions text, decoded and
/// trimmed, whenever that is not blank.
proof fn lemma_resource_found(head: Seq<u8>, instructions: Seq<u8>, tail: Seq<u8>)
    requires
        head.len() % 2 == 0,
        1 <= instructions.len() <= 0xFFFF,
        trim_chars(utf8_lossy(instructions)).len() > 0,
    ensures
        marker_at(
            head + photoshop_block(record_bytes(0x28, instructions)) + tail,
            head.len() as int,
        ),
        scan_resources(
            head + photoshop_block(record_bytes(0x28, instructions)) + tail,
            head.len() as int,
        ) == Some(Some(trim_chars(utf8_lossy(instructions)))),
{
    let h = head.len() as int;
    let iptc = record_bytes(0x28, instructions);
    let l = iptc.len() as int;
    let ps = photoshop_block(iptc);
    let data = head + ps + tail;
    let marker = seq![0x38u8, 0x42u8, 0x49u8, 0x4Du8];
    let raw = marker + be_bytes_u16(0x0404) + be_bytes_u16(0) + be_bytes_u32(l as u32) + iptc;
    assert(raw.len() == 12 + l);
    assert(data.subrange(h, h + raw.len()) =~= raw);
    assert(marker_at(data, h)) by {
        assert(data[h] == raw[0] && data[h + 1] == raw[1] && data[h + 2] == raw[2] && data[h + 3]
            == raw[3]);
    }
    assert(data.subrange(h + 4, h + 6) =~= be_bytes_u16(0x0404));
    lemma_be_u16_round_trip(0x0404, data, h + 4);
    assert(data[h + 6] == be_bytes_u16(0)[0]);
    assert(((0u16 >> 8u16) & 0xffu16) as u8 == 0) by (bit_vector);
    assert(data.subrange(h + 8, h + 12) =~= be_bytes_u32(l as u32));
    lemma_be_u32_round_trip(l as u32, data, h + 8);
    assert(data.subrange(h + 12, h + 12 + l) =~= iptc);
    let m = Map::<u8, Seq<Seq<u8>>>::empty().insert(0x28, seq![instructions]);
    let order = seq![0x28u8];
    assert(order.to_set() =~= m.dom()) by {
        assert(order[0] == 0x28u8);
        assert(order.contains(0x28u8));
    }
    assert(map_records(order, m) =~= iptc) by {
        let es = m[0x28];
        assert(order.drop_last() =~= Seq::<u8>::empty());
        assert(es.drop_last() =~= Seq::<Seq<u8>>::empty());
        assert(es.last() == instructions);
        assert(map_records(order, m) == map_records(order.drop_last(), m) + key_records(0x28, es));
        assert(key_records(0x28, es) == key_records(0x28, es.drop_last()) + record_bytes(
            0x28,
            instructions,
        ));
    }
    lemma_iptc_round_trip(m, order);
    let text = trim_chars(utf8_lossy(instructions));
    assert(m[0x28].map_values(|e: Seq<u8>| trim_chars(utf8_lossy(e))) =~= seq![text]);
    assert(combined_fields(m, 0x28, seq![' ']) == text);
}

/// What the reader finds in the Photoshop resource that the writer builds is
/// the special-instructions text, decoded and trimmed, whenever that is not
/// blank, whatever bytes follow the resource.
pub proof fn lemma_special_instructions_round_trip(instructions: Seq<u8>, tail: Seq<u8>)
    requires
        1 <= instructions.len() <= 0xFFFF,
        trim_chars(utf8_lossy(instructions)).len() > 0,
    ensures
        scan_resources(photoshop_block(record_bytes(0x28, instructions)) + tail, 0) == Some(
            Some(trim_chars(utf8_lossy(instructions))),
        ),
{
    let ps = photoshop_block(record_bytes(0x28, instructions));
    lemma_resource_found(Seq::empty(), instructions, tail);
    assert(Seq::<u8>::empty() + ps + tail =~= ps + tail);
}

/// When no marker starts inside `pre` (nor in its last three bytes) and one
/// starts right after it, the first marker at or after `i <= pre.len()` is
/// the one after `pre`.
proof fn lemma_first_marker_after(data: Seq<u8>, pre: Seq<u8>, i: int)
    requires
        pre.len() >= 3,
        pre.len() + 4 <= data.len(),
        data.subrange(0, pre.len() as int) == pre,
        0 <= i <= pre.len(),
        find_marker(pre, i) is None,
        pre[pre.len() - 3] != 0x38,
        pre[pre.len() - 2] != 0x38,
        pre[pre.len() - 1] != 0x38,
        marker_at(data, pre.len() as int),
    ensures
        find_marker(data, i) == Some(pre.len() as int),
    decreases pre.len() - i,
{
    let n = pre.len() as int;
    if i < n {
        assert(data.subrange(0, n)[i] == data[i]);
        if i + 4 <= n {
            assert(data.subrange(0, n)[i + 1] == data[i + 1]);
            assert(data.subrange(0, n)[i + 2] == data[i + 2]);
            assert(data.subrange(0, n)[i + 3] == data[i + 3]);
            assert(!marker_at(pre, i));
        }
        lemma_first_marker_after(data, pre, i + 1);
    }
}

/// A CryEngine TIFF reads back the special instructions it was written
/// with, decoded and trimmed, whenever they are not blank and none of the
/// header values before the Photoshop resource holds the bytes `8BIM` (the
/// reader starts at the first such marker in the file).
pub proof fn lemma_crytif_instructions_round_trip(
    width: u32,
    height: u32,
    strip: Seq<u8>,
    instructions: Seq<u8>,
)
    requires
        1 <= instructions.len() <= 0xFFFF,
        trim_chars(utf8_lossy(instructions)).len() > 0,
        find_marker(
            crytif_prefix(
                width,
                height,
                strip.len() as u32,
                photoshop_block(record_bytes(0x28, instructions)).len() as u32,
            ),
            0,
        ) is None,
    ensures
        instructions_readable(crytif_bytes(width, height, strip, instructions)),
        special_instructions(crytif_bytes(width, height, strip, instructions)) == trim_chars(
            utf8_lossy(instructions),
        ),
{
    let ps = photoshop_block(record_bytes(0x28, instructions));
    let pre = crytif_prefix(width, height, strip.len() as u32, ps.len() as u32);
    let data = crytif_bytes(width, height, strip, instructions);
    assert(data == pre + ps + strip);
    lemma_prefix_shape(width, height, strip.len() as u32, ps.len() as u32);
    lemma_resource_found(pre, instructions, strip);
    assert(data.subrange(0, 202) =~= pre);
    lemma_first_marker_after(data, pre, 0);
}

/// The header before the Photoshop resource is 202 bytes long and ends with
/// the bytes 8, 0, 8, 0 of the last two sample sizes.
proof fn lemma_prefix_shape(width: u32, height: u32, strip_len: u32, ps_len: u32)
    ensures
        crytif_prefix(width, height, strip_len, ps_len).len() == 202,
        crytif_prefix(width, height, strip_len, ps_len)[198] == 8,
        crytif_prefix(width, height, strip_len, ps_len)[199] == 0,
        crytif_prefix(width, height, strip_len, ps_len)[200] == 8,
        crytif_prefix(width, height, strip_len, ps_len)[201] == 0,
{
    let pre = crytif_prefix(width, height, strip_len, ps_len);
    let e = le_bytes_u16(8);
    assert((8u16 & 0xffu16) as u8 == 8 && ((8u16 >> 8u16) & 0xffu16) as u8 == 0) by (bit_vector);
    assert(crytif_tags(width, height, strip_len, ps_len).len() == 180);
    let head = seq![0x49u8, 0x49u8, 0x2Au8, 0u8] + le_bytes_u32(8) + le_bytes_u16(15) + crytif_tags(
        width,
        height,
        strip_len,
        ps_len,
    ) + le_bytes_u32(0) + e + e;
    assert(pre == head + e + e);
    assert(head.len() == 198);
}

/// The only listing of a single-key map's keys is that key.
proof fn lemma_single_key_order(order: Seq<u8>, m: Map<u8, Seq<Seq<u8>>>)
    requires
        is_key_order(order, m),
        m.dom() =~= set![0x28u8],
    ensures
        order =~= seq![0x28u8],
{
    assert(order.to_set().contains(0x28u8));
    let i = choose|i: int| 0 <= i < order.len() && order[i] == 0x28u8;
    assert forall|j: int| 0 <= j < order.len() implies order[j] == 0x28u8 by {
        assert(order.to_set().contains(order[j]));
    }
    if order.len() > 1 {
        let j = if i == 0 { 1int } else { 0int };
        assert(order[j] == order[i]);
    }
}

} // verus!
