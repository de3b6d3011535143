//! Per-texture properties read from preset settings, in particular the
//! per-platform resolution reduction ("reduce") setting.

use vstd::prelude::*;
use crate::channel_conversion::ascii_lower;
use crate::pixel_format::EPixelFormat;
use crate::text::{
    chars_of, decimal_i32, parse_i32, split, split_chars, string_from_chars, to_ascii_lower, trim,
    trim_chars,
};

verus! {

/// Colour models of a texture.
#[derive(Debug, Clone, Copy, PartialEq, Eq, Structural)]
pub enum EColorModel {
    RGB,
    CIE,
    YCbCr,
    YFbFr,
    IRB,
}

/// Colour space of the source image.
#[derive(Debug, Clone, Copy, PartialEq, Eq, Structural)]
pub enum EInputColorSpace {
    Linear,
    Srgb,
}

/// Colour space of the compiled texture.
#[derive(Debug, Clone, Copy, PartialEq, Eq, Structural)]
pub enum EOutputColorSpace {
    Linear,
    Srgb,
    Auto,
}

/// The reduction setting of one platform.
#[derive(Debug, Clone)]
pub struct ReduceItem {
    pub platform_name: String,
    pub platform_index: i32,
    pub value: i32,
}

impl View for ReduceItem {
    type V = (Seq<char>, i32, i32);

    open spec fn view(&self) -> (Seq<char>, i32, i32) {
        (self.platform_name@, self.platform_index, self.value)
    }
}

/// Texture properties. The reduce settings are kept one per platform name,
/// in the order in which the names first appeared.
#[derive(Debug, Clone)]
pub struct ImageProperties {
    pub preset: String,
    pub pixel_format: Option<EPixelFormat>,
    pub input_color_space: EInputColorSpace,
    pub output_color_space: EOutputColorSpace,
    pub maintain_alpha_coverage: bool,
    pub mip_renormalize: bool,
    pub generate_mips: bool,
    pub gloss_from_normals: bool,
    pub discard_alpha: bool,
    pub normalize_range: bool,
    pub min_texture_size: usize,
    pub max_texture_size: usize,
    pub reduce_map: Vec<ReduceItem>,
}

/// The views of a list of reduce settings.
pub open spec fn reduce_view(items: Seq<ReduceItem>) -> Seq<(Seq<char>, i32, i32)> {
    items.map_values(|r: ReduceItem| r@)
}

/// A reduction clamped to the range -2..=5.
pub open spec fn clamp_reduce(v: i32) -> i32 {
    if v < -2 {
        -2i32
    } else if v > 5 {
        5i32
    } else {
        v
    }
}

/// The reduction a text stands for: its trimmed decimal value, clamped, or
/// 0 when it is not a number.
pub open spec fn reduce_value(s: Seq<char>) -> i32 {
    match decimal_i32(trim_chars(s)) {
        Some(v) => clamp_reduce(v),
        None => 0,
    }
}

/// ASCII lower-casing of every character.
pub open spec fn lower_chars(s: Seq<char>) -> Seq<char> {
    s.map_values(|c: char| ascii_lower(c))
}

/// The setting a `platform:value` piece stands for (none unless the piece
/// holds exactly one colon).
pub open spec fn pair_item(p: Seq<char>) -> Option<(Seq<char>, i32, i32)> {
    let parts = split_chars(p, ':');
    if parts.len() == 2 {
        Some((lower_chars(trim_chars(parts[0])), -1i32, reduce_value(parts[1])))
    } else {
        None
    }
}

/// The settings of the pieces, in order.
pub open spec fn pair_items(pieces: Seq<Seq<char>>) -> Seq<(Seq<char>, i32, i32)>
    decreases pieces.len(),
{
    if pieces.len() == 0 {
        Seq::empty()
    } else {
        let p = pair_items(pieces.drop_last());
        match pair_item(pieces.last()) {
            Some(item) => p.push(item),
            None => p,
        }
    }
}

/// The settings a reduce string stands for, in order: comma-separated
/// `platform:value` pairs when it holds a colon, else one value for "pc".
pub open spec fn reduce_items(text: Seq<char>) -> Seq<(Seq<char>, i32, i32)> {
    if text.contains(':') {
        pair_items(split_chars(text, ','))
    } else {
        seq![(seq!['p', 'c'], 0i32, reduce_value(text))]
    }
}

/// The index of the first setting named `name`, or -1.
pub open spec fn find_name(list: Seq<(Seq<char>, i32, i32)>, name: Seq<char>) -> int
    decreases list.len(),
{
    if list.len() == 0 {
        -1
    } else {
        let f = find_name(list.drop_last(), name);
        if f >= 0 {
            f
        } else if list.last().0 == name {
            list.len() - 1
        } else {
            -1
        }
    }
}

/// `list` with `item` stored under its name: replacing the setting of that
/// name, or appended when there is none.
pub open spec fn assoc_insert(list: Seq<(Seq<char>, i32, i32)>, item: (Seq<char>, i32, i32)) -> Seq<
    (Seq<char>, i32, i32),
> {
    let i = find_name(list, item.0);
    if i >= 0 {
        list.update(i, item)
    } else {
        list.push(item)
    }
}

/// The settings stored one after the other into an empty list.
pub open spec fn insert_all(items: Seq<(Seq<char>, i32, i32)>) -> Seq<(Seq<char>, i32, i32)>
    decreases items.len(),
{
    if items.len() == 0 {
        Seq::empty()
    } else {
        assoc_insert(insert_all(items.drop_last()), items.last())
    }
}

/// The reduction for `platform` (compared ASCII case-insensitively): the
/// stored value if not negative, else 0; 0 for an unknown platform.
pub open spec fn platform_reduce(list: Seq<(Seq<char>, i32, i32)>, platform: Seq<char>) -> usize {
    let i = find_name(list, lower_chars(platform));
    if i >= 0 && list[i].2 > 0 {
        list[i].2 as usize
    } else {
        0
    }
}

proof fn lemma_find_name_bounds(list: Seq<(Seq<char>, i32, i32)>, name: Seq<char>)
    ensures
        -1 <= find_name(list, name) < list.len(),
        find_name(list, name) >= 0 ==> list[find_name(list, name)].0 == name,
        find_name(list, name) >= 0 ==> forall|k: int|
            0 <= k < find_name(list, name) ==> list[k].0 != name,
        find_name(list, name) < 0 ==> forall|k: int| 0 <= k < list.len() ==> list[k].0 != name,
    decreases list.len(),
{
    if list.len() > 0 {
        let l1 = list.drop_last();
        lemma_find_name_bounds(l1, name);
        assert forall|k: int| 0 <= k < l1.len() implies l1[k] == list[k] by {}
    }
}

/// Whether no two settings share a name.
pub open spec fn names_unique(list: Seq<(Seq<char>, i32, i32)>) -> bool {
    forall|i: int, j: int| 0 <= i < j < list.len() ==> #[trigger] list[i].0 != #[trigger] list[j].0
}

/// The last setting named `name` among `items`.
pub open spec fn last_named(items: Seq<(Seq<char>, i32, i32)>, name: Seq<char>) -> Option<
    (Seq<char>, i32, i32),
>
    decreases items.len(),
{
    if items.len() == 0 {
        None
    } else if items.last().0 == name {
        Some(items.last())
    } else {
        last_named(items.drop_last(), name)
    }
}

proof fn lemma_find_unique(list: Seq<(Seq<char>, i32, i32)>, name: Seq<char>, k: int)
    requires
        names_unique(list),
        0 <= k < list.len(),
        list[k].0 == name,
    ensures
        find_name(list, name) == k,
{
    lemma_find_name_bounds(list, name);
    let f = find_name(list, name);
    if f < 0 {
        assert(list[k].0 != name);
    } else if f != k {
        if f < k {
            assert(list[f].0 != list[k].0);
        } else {
            assert(list[k].0 != list[f].0);
        }
    }
}

proof fn lemma_find_absent(list: Seq<(Seq<char>, i32, i32)>, name: Seq<char>)
    requires
        forall|k: int| 0 <= k < list.len() ==> list[k].0 != name,
    ensures
        find_name(list, name) < 0,
{
    lemma_find_name_bounds(list, name);
}

/// Storing the settings of a reduce string one after the other keeps one
/// setting per platform name, and the setting kept for a name is the last
/// one given for it: a later pair for a platform replaces an earlier one.
pub proof fn lemma_reduce_last_wins(items: Seq<(Seq<char>, i32, i32)>)
    ensures
        names_unique(insert_all(items)),
        forall|name: Seq<char>|
            #![trigger last_named(items, name)]
            (find_name(insert_all(items), name) >= 0 <==> last_named(items, name) is Some),
        forall|name: Seq<char>|
            #![trigger last_named(items, name)]
            find_name(insert_all(items), name) >= 0 ==> insert_all(items)[find_name(
                insert_all(items),
                name,
            )] == last_named(items, name)->0,
    decreases items.len(),
{
    if items.len() == 0 {
        assert forall|name: Seq<char>| #![trigger last_named(items, name)]
            find_name(insert_all(items), name) < 0 by {
            lemma_find_absent(insert_all(items), name);
        }
    } else {
        let prev_items = items.drop_last();
        let item = items.last();
        lemma_reduce_last_wins(prev_items);
        let prev = insert_all(prev_items);
        let r = insert_all(items);
        lemma_find_name_bounds(prev, item.0);
        let i = find_name(prev, item.0);
        if i >= 0 {
            assert(r == prev.update(i, item));
        } else {
            assert(r == prev.push(item));
        }
        assert(names_unique(r)) by {
            assert forall|a: int, b: int| 0 <= a < b < r.len() implies #[trigger] r[a].0
                != #[trigger] r[b].0 by {
                if i >= 0 {
                    if a == i {
                        assert(prev[b].0 != prev[i].0);
                    } else if b == i {
                        assert(prev[a].0 != prev[i].0);
                    } else {
                        assert(prev[a].0 != prev[b].0);
                    }
                } else {
                    if b == prev.len() {
                        assert(prev[a].0 != item.0);
                    } else {
                        assert(prev[a].0 != prev[b].0);
                    }
                }
            }
        }
        assert forall|name: Seq<char>| #![trigger last_named(items, name)]
            (find_name(r, name) >= 0 <==> last_named(items, name) is Some) && (find_name(r, name)
                >= 0 ==> r[find_name(r, name)] == last_named(items, name)->0) by {
            assert(items.last() == item);
            let lp = last_named(prev_items, name);
            if name == item.0 {
                assert(last_named(items, name) == Some(item));
                let k = if i >= 0 {
                    i
                } else {
                    prev.len() as int
                };
                assert(r[k].0 == name);
                lemma_find_unique(r, name, k);
            } else {
                assert(last_named(items, name) == lp);
                lemma_find_name_bounds(prev, name);
                let f = find_name(prev, name);
                if f >= 0 {
                    assert(f != i);
                    assert(r[f] == prev[f]);
                    lemma_find_unique(r, name, f);
                } else {
                    assert forall|k: int| 0 <= k < r.len() implies r[k].0 != name by {
                        if k < prev.len() {
                            if i >= 0 && k == i {
                                assert(r[k] == item);
                            } else {
                                assert(r[k] == prev[k]);
                            }
                        } else {
                            assert(r[k] == item);
                        }
                    }
                    lemma_find_absent(r, name);
                }
            }
        }
    }
}

fn find_platform(list: &Vec<ReduceItem>, name: &String) -> (r: Option<usize>)
    ensures
        r matches Some(i) ==> i == find_name(reduce_view(list@), name@) && i < list@.len(),
        r is None ==> find_name(reduce_view(list@), name@) < 0,
{
    let ghost v = reduce_view(list@);
    proof {
        lemma_find_name_bounds(v, name@);
    }
    let mut i: usize = 0;
    while i < list.len()
        invariant
            i <= list@.len(),
            v == reduce_view(list@),
            forall|k: int| 0 <= k < i ==> v[k].0 != name@,
            -1 <= find_name(v, name@) < v.len(),
            find_name(v, name@) >= 0 ==> v[find_name(v, name@)].0 == name@,
            find_name(v, name@) >= 0 ==> forall|k: int|
                0 <= k < find_name(v, name@) ==> v[k].0 != name@,
            find_name(v, name@) < 0 ==> forall|k: int| 0 <= k < v.len() ==> v[k].0 != name@,
        decreases list@.len() - i,
    {
        if list[i].platform_name == *name {
            assert(v[i as int].0 == name@);
            return Some(i);
        }
        i = i + 1;
    }
    None
}

fn store_reduce(list: &mut Vec<ReduceItem>, item: ReduceItem)
    ensures
        reduce_view(final(list)@) == assoc_insert(reduce_view(old(list)@), item@),
{
    match find_platform(list, &item.platform_name) {
        Some(i) => {
            let ghost item_view = item@;
            list.set(i, item);
            assert(reduce_view(list@) =~= reduce_view(old(list)@).update(i as int, item_view));
        },
        None => {
            let ghost item_view = item@;
            list.push(item);
            assert(reduce_view(list@) =~= reduce_view(old(list)@).push(item_view));
        },
    }
}

fn reduce_value_of(s: &Vec<char>) -> (r: i32)
    ensures
        r == reduce_value(s@),
{
    let t = trim(s);
    match parse_i32(&t) {
        Some(v) => if v < -2 {
            -2
        } else if v > 5 {
            5
        } else {
            v
        },
        None => 0,
    }
}

fn contains_char(s: &Vec<char>, c: char) -> (r: bool)
    ensures
        r == s@.contains(c),
{
    let mut i: usize = 0;
    while i < s.len()
        invariant
            i <= s@.len(),
            forall|k: int| 0 <= k < i ==> s@[k] != c,
        decreases s@.len() - i,
    {
        if s[i] == c {
            assert(s@[i as int] == c);
            return true;
        }
        i = i + 1;
    }
    false
}

impl Default for ImageProperties {
    fn default() -> (r: Self)
        ensures
            r.preset@ == "Albedo"@,
            r.pixel_format is None,
            r.input_color_space == EInputColorSpace::Linear,
            r.output_color_space == EOutputColorSpace::Linear,
            !r.maintain_alpha_coverage,
            !r.mip_renormalize,
            r.generate_mips,
            !r.gloss_from_normals,
            !r.discard_alpha,
            !r.normalize_range,
            r.min_texture_size == 0,
            r.max_texture_size == 0,
            r.reduce_map@.len() == 0,
    {
        ImageProperties {
            preset: String::from_str("Albedo"),
            pixel_format: None,
            input_color_space: EInputColorSpace::Linear,
            output_color_space: EOutputColorSpace::Linear,
            maintain_alpha_coverage: false,
            mip_renormalize: false,
            generate_mips: true,
            gloss_from_normals: false,
            discard_alpha: false,
            normalize_range: false,
            min_texture_size: 0,
            max_texture_size: 0,
            reduce_map: Vec::new(),
        }
    }
}

impl ImageProperties {
    /// Replaces the reduce settings by those of `text`: comma-separated
    /// `platform:value` pairs (names trimmed and lower-cased, values trimmed,
    /// parsed, 0 when not a number, clamped to -2..=5) when it holds a colon,
    /// else one value for "pc". A later pair for a name replaces an earlier one.
    pub fn parse_reduce_string(&mut self, text: &str)
        ensures
            reduce_view(final(self).reduce_map@) == insert_all(reduce_items(text@)),
            final(self).preset == old(self).preset,
            final(self).pixel_format == old(self).pixel_format,
            final(self).input_color_space == old(self).input_color_space,
            final(self).output_color_space == old(self).output_color_space,
            final(self).maintain_alpha_coverage == old(self).maintain_alpha_coverage,
            final(self).mip_renormalize == old(self).mip_renormalize,
            final(self).generate_mips == old(self).generate_mips,
            final(self).gloss_from_normals == old(self).gloss_from_normals,
            final(self).discard_alpha == old(self).discard_alpha,
            final(self).normalize_range == old(self).normalize_range,
            final(self).min_texture_size == old(self).min_texture_size,
            final(self).max_texture_size == old(self).max_texture_size,
    {
        let mut map: Vec<ReduceItem> = Vec::new();
        assert(reduce_view(map@) =~= Seq::<(Seq<char>, i32, i32)>::empty());
        let chars = chars_of(text);
        if contains_char(&chars, ':') {
            let pieces = split(&chars, ',');
            let ghost pv = pieces@.map_values(|p: Vec<char>| p@);
            let mut k: usize = 0;
            while k < pieces.len()
                invariant
                    k <= pieces@.len(),
                    pv == pieces@.map_values(|p: Vec<char>| p@),
                    reduce_view(map@) == insert_all(
                        pair_items(pv.subrange(0, k as int)),
                    ),
                decreases pieces@.len() - k,
            {
                let parts = split(&pieces[k], ':');
                let ghost before = pair_items(pv.subrange(0, k as int));
                proof {
                    let sub = pv.subrange(0, k + 1);
                    assert(sub.drop_last() =~= pv.subrange(0, k as int));
                    assert(sub.last() == pieces@[k as int]@);
                    assert(parts@.map_values(|p: Vec<char>| p@).len() == parts@.len());
                }
                if parts.len() == 2 {
                    let name = to_ascii_lower(&trim(&parts[0]));
                    let value = reduce_value_of(&parts[1]);
                    let item = ReduceItem {
                        platform_name: string_from_chars(&name),
                        platform_index: -1,
                        value,
                    };
                    proof {
                        let pp = parts@.map_values(|p: Vec<char>| p@);
                        assert(pp[0] == parts@[0]@ && pp[1] == parts@[1]@);
                        assert(item@ == pair_item(pieces@[k as int]@).unwrap());
                        assert(pair_items(pv.subrange(0, k + 1)) == before.push(item@));
                        assert(before.push(item@).drop_last() =~= before);
                    }
                    store_reduce(&mut map, item);
                } else {
                    assert(pair_items(pv.subrange(0, k + 1)) == before);
                }
                k = k + 1;
            }
            assert(pv.subrange(0, pieces@.len() as int) =~= pv);
            assert(pv == split_chars(text@, ','));
            assert(text@.contains(':'));
            assert(reduce_view(map@) == insert_all(reduce_items(text@)));
        } else {
            let value = reduce_value_of(&chars);
            let item = ReduceItem {
                platform_name: String::from_str("pc"),
                platform_index: 0,
                value,
            };
            proof {
                reveal_strlit("pc");
                assert(item@ == (seq!['p', 'c'], 0i32, reduce_value(text@)));
                let items = reduce_items(text@);
                assert(items.drop_last() =~= Seq::<(Seq<char>, i32, i32)>::empty());
            }
            store_reduce(&mut map, item);
            proof {
                let items = reduce_items(text@);
                assert(!text@.contains(':'));
                assert(items.last() == item@);
                assert(insert_all(items.drop_last()) =~= Seq::<(Seq<char>, i32, i32)>::empty());
                assert(reduce_view(map@) == insert_all(reduce_items(text@)));
            }
        }
        self.reduce_map = map;
    }

    /// The resolution reduction for `platform` (ASCII case-insensitive):
    /// the stored value when positive, else 0; 0 for an unknown platform.
    pub fn get_resolution_reduce_for_platform(&self, platform: &str) -> (r: usize)
        ensures
            r == platform_reduce(reduce_view(self.reduce_map@), platform@),
    {
        let chars = chars_of(platform);
        let name = string_from_chars(&to_ascii_lower(&chars));
        match find_platform(&self.reduce_map, &name) {
            Some(i) => {
                let v = self.reduce_map[i].value;
                if v > 0 {
                    v as usize
                } else {
                    0
                }
            },
            None => 0,
        }
    }
}

} // verus!
