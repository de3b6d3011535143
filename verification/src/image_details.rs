//! Asset details (name/value pairs) read from compiled DDS headers and from
//! the `/cryasset=` entries of TIFF special instructions.

use vstd::prelude::*;
use crate::byteio::{
    le_bytes_u32, le_u32_of, lemma_le_u32_round_trip, lemma_words_le_index, read_le_u32, words_le,
};
use crate::dds_io::{dds_file, dds_header_words, dds_stream, cry_image_flags, is_block_compressed};
use crate::text::{chars_of, split, split_chars, string_from_chars};

verus! {

/// One named detail of an asset.
#[derive(Debug, Clone)]
pub struct AssetDetail {
    pub name: String,
    pub value: String,
}

impl View for AssetDetail {
    type V = (Seq<char>, Seq<char>);

    open spec fn view(&self) -> (Seq<char>, Seq<char>) {
        (self.name@, self.value@)
    }
}

/// The views of a list of details.
pub open spec fn details_view(d: Seq<AssetDetail>) -> Seq<(Seq<char>, Seq<char>)> {
    d.map_values(|a: AssetDetail| a@)
}

/// The decimal digit character of `d`.
pub open spec fn digit_char(d: nat) -> char {
    (('0' as u32) + d) as char
}

/// The decimal representation of `v`, without leading zeros.
pub open spec fn decimal_chars(v: nat) -> Seq<char>
    decreases v,
{
    if v < 10 {
        seq![digit_char(v)]
    } else {
        decimal_chars(v / 10).push(digit_char(v % 10))
    }
}

/// The decimal digits of `v`.
pub fn decimal_u32(v: u32) -> (r: Vec<char>)
    ensures
        r@ == decimal_chars(v as nat),
    decreases v,
{
    let d = (v % 10) as u8;
    let c = (48u8 + d) as char;
    if v < 10 {
        let mut r: Vec<char> = Vec::new();
        r.push(c);
        r
    } else {
        let mut r = decimal_u32(v / 10);
        r.push(c);
        r
    }
}

/// Whether `raw` starts with the DDS magic "DDS ".
pub open spec fn has_dds_magic(raw: Seq<u8>) -> bool {
    raw[0] == 0x44 && raw[1] == 0x44 && raw[2] == 0x53 && raw[3] == 0x20
}

/// The details of a DDS header: width, height and mip count (at least 1).
pub open spec fn dds_details(raw: Seq<u8>) -> Seq<(Seq<char>, Seq<char>)> {
    let height = le_u32_of(raw, 12);
    let width = le_u32_of(raw, 16);
    let mips = le_u32_of(raw, 28);
    let mip_count = if mips > 1 {
        mips
    } else {
        1u32
    };
    seq![
        (seq!['w', 'i', 'd', 't', 'h'], decimal_chars(width as nat)),
        (seq!['h', 'e', 'i', 'g', 'h', 't'], decimal_chars(height as nat)),
        (seq!['m', 'i', 'p', 'C', 'o', 'u', 'n', 't'], decimal_chars(mip_count as nat)),
    ]
}

/// The characters of the `/cryasset=` prefix.
pub open spec fn cryasset_prefix() -> Seq<char> {
    seq!['/', 'c', 'r', 'y', 'a', 's', 's', 'e', 't', '=']
}

/// The details of `name,value` pairs, in order; other pairs are skipped.
pub open spec fn pair_details(pairs: Seq<Seq<char>>) -> Seq<(Seq<char>, Seq<char>)>
    decreases pairs.len(),
{
    if pairs.len() == 0 {
        Seq::empty()
    } else {
        let d = pair_details(pairs.drop_last());
        let kv = split_chars(pairs.last(), ',');
        if kv.len() == 2 {
            d.push((kv[0], kv[1]))
        } else {
            d
        }
    }
}

/// The details of the `/cryasset=` tokens, in order: the text after the
/// prefix is a `;`-separated list of `name,value` pairs.
pub open spec fn token_details(tokens: Seq<Seq<char>>) -> Seq<(Seq<char>, Seq<char>)>
    decreases tokens.len(),
{
    if tokens.len() == 0 {
        Seq::empty()
    } else {
        let d = token_details(tokens.drop_last());
        let t = tokens.last();
        if t.len() >= 10 && t.subrange(0, 10) == cryasset_prefix() {
            d + pair_details(split_chars(t.subrange(10, t.len() as int), ';'))
        } else {
            d
        }
    }
}

/// The details that special instructions carry: those of its space-separated
/// `/cryasset=` tokens.
pub open spec fn instruction_details(instructions: Seq<char>) -> Seq<(Seq<char>, Seq<char>)> {
    token_details(split_chars(instructions, ' '))
}

/// The details read from a DDS file that `DdsIO::build_dds_file` writes are
/// the width, the height and the mip count (at least 1) it was written with.
pub proof fn lemma_dds_details_read_back(
    width: u32,
    height: u32,
    mip_count: u32,
    fmt: u32,
    is_srgb: bool,
    is_cubemap: bool,
    has_attached_alpha: bool,
    is_renormalized: bool,
    is_file_single: bool,
    main_payload: Seq<u8>,
    attached_alpha_payload: Option<Seq<u8>>,
)
    ensures
        ({
            let f = dds_file(
                width,
                height,
                mip_count,
                fmt,
                is_srgb,
                is_cubemap,
                has_attached_alpha,
                is_renormalized,
                is_file_single,
                main_payload,
                attached_alpha_payload,
            );
            let mips = if mip_count > 1 {
                mip_count
            } else {
                1u32
            };
            &&& f.len() >= 128
            &&& has_dds_magic(f)
            &&& dds_details(f) == seq![
                (seq!['w', 'i', 'd', 't', 'h'], decimal_chars(width as nat)),
                (seq!['h', 'e', 'i', 'g', 'h', 't'], decimal_chars(height as nat)),
                (seq!['m', 'i', 'p', 'C', 'o', 'u', 'n', 't'], decimal_chars(mips as nat)),
            ]
        }),
{
    let f = dds_file(
        width,
        height,
        mip_count,
        fmt,
        is_srgb,
        is_cubemap,
        has_attached_alpha,
        is_renormalized,
        is_file_single,
        main_payload,
        attached_alpha_payload,
    );
    let cry_flags = cry_image_flags(
        is_srgb,
        is_cubemap,
        has_attached_alpha,
        is_renormalized,
        is_file_single,
    );
    let dx10 = is_block_compressed(fmt);
    let hw = dds_header_words(width, height, mip_count, fmt, is_cubemap, cry_flags, dx10);
    let head = words_le(hw);
    let main = dds_stream(width, height, mip_count, fmt, is_cubemap, cry_flags, dx10, main_payload);
    assert(hw.len() >= 32);
    lemma_words_le_index(hw, 0);
    lemma_words_le_index(hw, 3);
    lemma_words_le_index(hw, 4);
    lemma_words_le_index(hw, 7);
    assert(main == head + main_payload);
    assert(f.subrange(0, head.len() as int) =~= head);
    assert(f.subrange(12, 16) =~= head.subrange(12, 16));
    assert(f.subrange(16, 20) =~= head.subrange(16, 20));
    assert(f.subrange(28, 32) =~= head.subrange(28, 32));
    assert(f.subrange(0, 4) =~= head.subrange(0, 4));
    lemma_le_u32_round_trip(height, f, 12);
    lemma_le_u32_round_trip(width, f, 16);
    lemma_le_u32_round_trip(mip_count, f, 28);
    let m: u32 = 0x20534444;
    assert((m & 0xffu32) as u8 == 0x44 && ((m >> 8u32) & 0xffu32) as u8 == 0x44 && ((m >> 16u32)
        & 0xffu32) as u8 == 0x53 && ((m >> 24u32) & 0xffu32) as u8 == 0x20) by (bit_vector)
        requires
            m == 0x20534444,
    ;
    assert(f[0] == head[0] && f[1] == head[1] && f[2] == head[2] && f[3] == head[3]);
}

/// Collecting asset details.
pub struct ImageDetails;

fn detail(name: &str, value: &Vec<char>) -> (r: AssetDetail)
    ensures
        r@ == (name@, value@),
{
    AssetDetail { name: String::from_str(name), value: string_from_chars(value) }
}

fn pair_detail_list(pairs: &Vec<Vec<char>>, details: &mut Vec<AssetDetail>)
    ensures
        details_view(final(details)@) == details_view(old(details)@) + pair_details(
            pairs@.map_values(|p: Vec<char>| p@),
        ),
{
    let ghost pv = pairs@.map_values(|p: Vec<char>| p@);
    let mut i: usize = 0;
    while i < pairs.len()
        invariant
            i <= pairs@.len(),
            pv == pairs@.map_values(|p: Vec<char>| p@),
            details_view(details@) == details_view(old(details)@) + pair_details(
                pv.subrange(0, i as int),
            ),
        decreases pairs@.len() - i,
    {
        let ghost before = details_view(details@);
        let kv = split(&pairs[i], ',');
        proof {
            let sub = pv.subrange(0, i + 1);
            assert(sub.drop_last() =~= pv.subrange(0, i as int));
            assert(sub.last() == pairs@[i as int]@);
        }
        if kv.len() == 2 {
            let d = AssetDetail { name: string_from_chars(&kv[0]), value: string_from_chars(&kv[1]) };
            proof {
                let kvv = kv@.map_values(|p: Vec<char>| p@);
                assert(kvv[0] == kv@[0]@ && kvv[1] == kv@[1]@);
            }
            details.push(d);
            assert(details_view(details@) =~= before.push(d@));
        }
        i = i + 1;
    }
    assert(pv.subrange(0, pairs@.len() as int) =~= pv);
}

fn has_cryasset_prefix(t: &Vec<char>) -> (r: bool)
    ensures
        r == (t@.len() >= 10 && t@.subrange(0, 10) == cryasset_prefix()),
{
    let prefix: [char; 10] = ['/', 'c', 'r', 'y', 'a', 's', 's', 'e', 't', '='];
    assert(prefix@ =~= cryasset_prefix());
    if t.len() < 10 {
        return false;
    }
    let mut i: usize = 0;
    while i < 10
        invariant
            i <= 10,
            t@.len() >= 10,
            prefix@ == cryasset_prefix(),
            forall|k: int| 0 <= k < i ==> t@[k] == prefix@[k],
        decreases 10 - i,
    {
        if t[i] != prefix[i] {
            assert(t@.subrange(0, 10)[i as int] != cryasset_prefix()[i as int]);
            return false;
        }
        i = i + 1;
    }
    assert(t@.subrange(0, 10) =~= cryasset_prefix());
    true
}

impl ImageDetails {
    /// Appends the width, height and mip count of a DDS file's header (read
    /// little-endian at byte 16, 12 and 28; the mip count at least 1); an
    /// error, with nothing appended, for fewer than 128 bytes or a wrong magic.
    pub fn collect_dds_details_from_bytes(raw: &[u8], details: &mut Vec<AssetDetail>) -> (r: Result<
        (),
        String,
    >)
        ensures
            r is Err <==> (raw@.len() < 128 || !has_dds_magic(raw@)),
            r is Err ==> final(details)@ == old(details)@,
            r is Ok ==> details_view(final(details)@) == details_view(old(details)@) + dds_details(
                raw@,
            ),
    {
        if raw.len() < 128 || !(raw[0] == 0x44 && raw[1] == 0x44 && raw[2] == 0x53 && raw[3] == 0x20) {
            return Err(String::from_str("Invalid DDS header"));
        }
        let height = read_le_u32(raw, 12);
        let width = read_le_u32(raw, 16);
        let mips = read_le_u32(raw, 28);
        let mip_count = if mips > 1 {
            mips
        } else {
            1
        };
        let ghost before = details_view(details@);
        let dw = detail("width", &decimal_u32(width));
        let dh = detail("height", &decimal_u32(height));
        let dm = detail("mipCount", &decimal_u32(mip_count));
        details.push(dw);
        details.push(dh);
        details.push(dm);
        proof {
            reveal_strlit("width");
            reveal_strlit("height");
            reveal_strlit("mipCount");
            assert("width"@ =~= seq!['w', 'i', 'd', 't', 'h']);
            assert("height"@ =~= seq!['h', 'e', 'i', 'g', 'h', 't']);
            assert("mipCount"@ =~= seq!['m', 'i', 'p', 'C', 'o', 'u', 'n', 't']);
            assert(details_view(details@) =~= before + dds_details(raw@));
        }
        Ok(())
    }

    /// Appends the details that special instructions carry: for each
    /// space-separated token starting with `/cryasset=`, each `;`-separated
    /// `name,value` pair after the prefix.
    pub fn collect_tif_details_from_instructions(
        instructions: &str,
        details: &mut Vec<AssetDetail>,
    )
        ensures
            details_view(final(details)@) == details_view(old(details)@) + instruction_details(
                instructions@,
            ),
    {
        let chars = chars_of(instructions);
        let tokens = split(&chars, ' ');
        let ghost tv = tokens@.map_values(|p: Vec<char>| p@);
        let mut i: usize = 0;
        while i < tokens.len()
            invariant
                i <= tokens@.len(),
                tv == tokens@.map_values(|p: Vec<char>| p@),
                details_view(details@) == details_view(old(details)@) + token_details(
                    tv.subrange(0, i as int),
                ),
            decreases tokens@.len() - i,
        {
            let ghost before = details_view(details@);
            proof {
                let sub = tv.subrange(0, i + 1);
                assert(sub.drop_last() =~= tv.subrange(0, i as int));
                assert(sub.last() == tokens@[i as int]@);
            }
            if has_cryasset_prefix(&tokens[i]) {
                let t = &tokens[i];
                let mut rest: Vec<char> = Vec::new();
                let mut k: usize = 10;
                while k < t.len()
                    invariant
                        10 <= k <= t@.len(),
                        rest@ == t@.subrange(10, k as int),
                    decreases t@.len() - k,
                {
                    rest.push(t[k]);
                    k = k + 1;
                }
                let pairs = split(&rest, ';');
                pair_detail_list(&pairs, details);
                assert(details_view(details@) =~= before + pair_details(
                    split_chars(t@.subrange(10, t@.len() as int), ';'),
                ));
            }
            i = i + 1;
        }
        assert(tv.subrange(0, tokens@.len() as int) =~= tv);
    }
}

} // verus!
