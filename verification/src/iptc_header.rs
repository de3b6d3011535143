//! IPTC-NAA records (the Photoshop 0x0404 resource): parsing the application
//! dataset records into a map from dataset id to its entries, and writing
//! them back.

use std::collections::HashMap;
use vstd::std_specs::iter::IteratorSpec;
use vstd::prelude::*;
use crate::text::{join_chars, join_strings, string_from_utf8_lossy, trim, trim_chars, utf8_lossy,
    chars_of, string_from_chars};

verus! {

broadcast use vstd::std_specs::hash::group_hash_axioms;

pub const IPTC_TAG_MARKER: u8 = 0x1C;

pub const IPTC_RECORD_APP_DATASET: u8 = 0x02;

pub const FIELD_SPECIAL_INSTRUCTIONS: u8 = 0x28;

/// The IPTC datasets of record 2, by dataset id, each with its entries in
/// the order they were read.
#[derive(Debug, Clone)]
pub struct IptcHeader {
    pub fields: HashMap<u8, Vec<Vec<u8>>>,
}

impl Default for IptcHeader {
    fn default() -> (r: Self)
        ensures
            r@ == Map::<u8, Seq<Seq<u8>>>::empty(),
    {
        IptcHeader::new()
    }
}

/// The byte strings of a list of entries.
pub open spec fn entries_view(v: Vec<Vec<u8>>) -> Seq<Seq<u8>> {
    v@.map_values(|e: Vec<u8>| e@)
}

impl View for IptcHeader {
    type V = Map<u8, Seq<Seq<u8>>>;

    open spec fn view(&self) -> Map<u8, Seq<Seq<u8>>> {
        self.fields@.map_values(|v: Vec<Vec<u8>>| entries_view(v))
    }
}

/// The entries of `key` in `m` (none when the key is absent).
pub open spec fn entries_of(m: Map<u8, Seq<Seq<u8>>>, key: u8) -> Seq<Seq<u8>> {
    if m.contains_key(key) {
        m[key]
    } else {
        Seq::empty()
    }
}

/// `m` with `data` appended to the entries of `key`.
pub open spec fn add_entry(m: Map<u8, Seq<Seq<u8>>>, key: u8, data: Seq<u8>) -> Map<
    u8,
    Seq<Seq<u8>>,
> {
    m.insert(key, entries_of(m, key).push(data))
}

/// The big-endian length field of the record at the front of `buf`.
pub open spec fn record_len(buf: Seq<u8>) -> int {
    buf[3] as int * 256 + buf[4] as int
}

/// The records at the front of `buf`, added to `acc`. Reading stops at a
/// byte other than the tag marker, when five bytes or fewer are left, or at a
/// record whose data runs past the end; records of other record types are
/// skipped.
pub open spec fn parse_records(buf: Seq<u8>, acc: Map<u8, Seq<Seq<u8>>>) -> Map<
    u8,
    Seq<Seq<u8>>,
>
    decreases buf.len(),
{
    if buf.len() <= 5 || buf[0] != 0x1C {
        acc
    } else {
        let len = record_len(buf);
        if 5 + len > buf.len() {
            acc
        } else {
            let next = if buf[1] == 2 {
                add_entry(acc, buf[2], buf.subrange(5, 5 + len))
            } else {
                acc
            };
            parse_records(buf.subrange(5 + len, buf.len() as int), next)
        }
    }
}

/// The datasets that parsing `buf` yields.
pub open spec fn iptc_parse(buf: Seq<u8>) -> Map<u8, Seq<Seq<u8>>> {
    parse_records(buf, Map::empty())
}

/// One record: marker, record type 2, dataset id, the length in two
/// big-endian bytes (its low 16 bits), then the data.
pub open spec fn record_bytes(key: u8, data: Seq<u8>) -> Seq<u8> {
    seq![0x1Cu8, 0x02u8, key, ((data.len() / 256) % 256) as u8, (data.len() % 256) as u8] + data
}

/// The records of one dataset, its entries in order.
pub open spec fn key_records(key: u8, entries: Seq<Seq<u8>>) -> Seq<u8>
    decreases entries.len(),
{
    if entries.len() == 0 {
        Seq::empty()
    } else {
        key_records(key, entries.drop_last()) + record_bytes(key, entries.last())
    }
}

/// The records of the datasets of `m`, the datasets in the order `order`.
pub open spec fn map_records(order: Seq<u8>, m: Map<u8, Seq<Seq<u8>>>) -> Seq<u8>
    decreases order.len(),
{
    if order.len() == 0 {
        Seq::empty()
    } else {
        map_records(order.drop_last(), m) + key_records(order.last(), m[order.last()])
    }
}

/// Whether `order` lists every dataset id of `m` exactly once.
pub open spec fn is_key_order(order: Seq<u8>, m: Map<u8, Seq<Seq<u8>>>) -> bool {
    &&& order.no_duplicates()
    &&& order.to_set() == m.dom()
}

/// The text of the entries of `field_id`: each entry decoded as lossy UTF-8
/// and trimmed, joined with `sep`; empty when the dataset is absent.
pub open spec fn combined_fields(m: Map<u8, Seq<Seq<u8>>>, field_id: u8, sep: Seq<char>) -> Seq<
    char,
> {
    if m.contains_key(field_id) {
        join_chars(m[field_id].map_values(|e: Seq<u8>| trim_chars(utf8_lossy(e))), sep)
    } else {
        Seq::empty()
    }
}

impl IptcHeader {
    /// A header with no datasets.
    pub fn new() -> (r: Self)
        ensures
            r@ == Map::<u8, Seq<Seq<u8>>>::empty(),
    {
        let r = IptcHeader { fields: HashMap::new() };
        assert(r@ =~= Map::<u8, Seq<Seq<u8>>>::empty());
        r
    }

    /// Replaces the datasets by those read from `buffer`.
    pub fn parse(&mut self, buffer: &[u8])
        ensures
            final(self)@ == iptc_parse(buffer@),
    {
        self.fields.clear();
        assert(self@ =~= Map::<u8, Seq<Seq<u8>>>::empty());
        let n = buffer.len();
        let mut pos: usize = 0;
        assert(buffer@.subrange(0, n as int) =~= buffer@);
        while pos < n && n - pos > 5
            invariant
                n == buffer@.len(),
                pos <= n,
                parse_records(buffer@.subrange(pos as int, n as int), self@) == iptc_parse(
                    buffer@,
                ),
            decreases n - pos,
        {
            let ghost rest = buffer@.subrange(pos as int, n as int);
            if buffer[pos] != IPTC_TAG_MARKER {
                return;
            }
            let record_type = buffer[pos + 1];
            let dataset_id = buffer[pos + 2];
            let field_len: usize = (buffer[pos + 3] as usize) * 256 + (buffer[pos + 4] as usize);
            assert(field_len == record_len(rest));
            let start = pos + 5;
            if field_len > n - start {
                return;
            }
            let ghost before = self@;
            if record_type == IPTC_RECORD_APP_DATASET {
                let data = vstd::slice::slice_to_vec(
                    vstd::slice::slice_subrange(buffer, start, start + field_len),
                );
                let mut list: Vec<Vec<u8>> = match self.fields.remove(&dataset_id) {
                    Some(l) => l,
                    None => Vec::new(),
                };
                assert(entries_view(list) == entries_of(before, dataset_id));
                assert(data@ =~= rest.subrange(5, 5 + field_len));
                list.push(data);
                assert(entries_view(list) =~= entries_of(before, dataset_id).push(
                    rest.subrange(5, 5 + field_len),
                ));
                self.fields.insert(dataset_id, list);
                assert(self@ =~= add_entry(before, dataset_id, rest.subrange(5, 5 + field_len)));
            }
            pos = start + field_len;
            assert(rest.subrange(5 + field_len, rest.len() as int) =~= buffer@.subrange(
                pos as int,
                n as int,
            ));
        }
    }

    /// The entries of `field_id`, each decoded as lossy UTF-8 and trimmed,
    /// joined with `separator`; empty when the dataset is absent.
    pub fn get_combined_fields(&self, field_id: u8, separator: &str) -> (r: String)
        ensures
            r@ == combined_fields(self@, field_id, separator@),
    {
        match self.fields.get(&field_id) {
            Some(list) => {
                let mut strings: Vec<String> = Vec::new();
                let mut i: usize = 0;
                while i < list.len()
                    invariant
                        i <= list.len(),
                        strings@.map_values(|p: String| p@) == entries_view(
                            *list,
                        ).subrange(0, i as int).map_values(
                            |e: Seq<u8>| trim_chars(utf8_lossy(e)),
                        ),
                    decreases list.len() - i,
                {
                    let decoded = string_from_utf8_lossy(list[i].as_slice());
                    let chars = chars_of(decoded.as_str());
                    let kept = trim(&chars);
                    let ghost prev = strings@.map_values(|p: String| p@);
                    let made = string_from_chars(&kept);
                    proof {
                        let e = entries_view(*list)[i as int];
                        assert(e == list@[i as int]@);
                        assert(made@ == trim_chars(utf8_lossy(e)));
                    }
                    strings.push(made);
                    assert(strings@.map_values(|p: String| p@) =~= prev.push(made@));
                    i = i + 1;
                    assert(strings@.map_values(|p: String| p@) =~= entries_view(
                        *list,
                    ).subrange(0, i as int).map_values(|e: Seq<u8>| trim_chars(utf8_lossy(e))));
                }
                assert(entries_view(*list).subrange(0, list.len() as int) =~= entries_view(*list));
                join_strings(&strings, separator)
            },
            None => String::new(),
        }
    }

    /// The records of every dataset: one record per entry, the entries of a
    /// dataset together and in order. The datasets come in the order in which
    /// the map is walked, which is left open.
    pub fn build_bytes(&self) -> (r: Vec<u8>)
        ensures
            exists|order: Seq<u8>| is_key_order(order, self@) && r@ == map_records(order, self@),
    {
        let mut buffer: Vec<u8> = Vec::new();
        let ghost mut order: Seq<u8> = Seq::empty();
        let ghost pairs = vstd::std_specs::hash::spec_hash_map_iter(&self.fields).remaining();
        for (dataset_id, entries) in it: self.fields.iter()
            invariant
                it.seq() == pairs,
                pairs == vstd::std_specs::hash::spec_hash_map_iter(&self.fields).remaining(),
                pairs.no_duplicates(),
                order == it.seq().subrange(0, it.index()).map_values(
                    |p: (&u8, &Vec<Vec<u8>>)| *p.0,
                ),
                buffer@ == map_records(order, self@),
        {
            let ghost before = buffer@;
            assert(0 <= it.index() < pairs.len());
            assert(pairs[it.index()] == (dataset_id, entries));
            assert(self.fields@.contains_key(*dataset_id) && self.fields@[*dataset_id] == *entries);
            let mut j: usize = 0;
            while j < entries.len()
                invariant
                    j <= entries.len(),
                    buffer@ == before + key_records(
                        *dataset_id,
                        entries_view(*entries).subrange(0, j as int),
                    ),
                decreases entries.len() - j,
            {
                let entry = &entries[j];
                let len = entry.len();
                buffer.push(IPTC_TAG_MARKER);
                buffer.push(IPTC_RECORD_APP_DATASET);
                buffer.push(*dataset_id);
                buffer.push(#[verifier::truncate] (((len >> 8) & 0xFF) as u8));
                buffer.push(#[verifier::truncate] ((len & 0xFF) as u8));
                crate::byteio::push_all(&mut buffer, entry.as_slice());
                proof {
                    assert((len >> 8) & 0xFF == (len / 256) % 256 && len & 0xFF == len % 256)
                        by (bit_vector);
                    let es = entries_view(*entries).subrange(0, j + 1);
                    assert(es.drop_last() =~= entries_view(*entries).subrange(0, j as int));
                    assert(es.last() == entry@);
                }
                j = j + 1;
            }
            proof {
                assert(entries_view(*entries).subrange(0, entries.len() as int) =~= entries_view(
                    *entries,
                ));
                let old_order = order;
                order = order.push(*dataset_id);
                assert(order.drop_last() =~= old_order);
                assert(self@[*dataset_id] == entries_view(*entries));
                assert(order =~= it.seq().subrange(0, it.index() + 1).map_values(
                    |p: (&u8, &Vec<Vec<u8>>)| *p.0,
                ));
            }
        }
        proof {
            assert(order =~= pairs.map_values(|p: (&u8, &Vec<Vec<u8>>)| *p.0));
            lemma_iter_order(&self.fields, pairs, order);
            assert(self@.dom() =~= self.fields@.dom());
        }
        buffer
    }
}

/// The keys of a walk over a hash map list each of its keys exactly once.
proof fn lemma_iter_order(
    m: &HashMap<u8, Vec<Vec<u8>>>,
    pairs: Seq<(&u8, &Vec<Vec<u8>>)>,
    order: Seq<u8>,
)
    requires
        pairs == vstd::std_specs::hash::spec_hash_map_iter(m).remaining(),
        pairs.no_duplicates(),
        order == pairs.map_values(|p: (&u8, &Vec<Vec<u8>>)| *p.0),
    ensures
        order.no_duplicates(),
        order.to_set() == m@.dom(),
{
    assert forall|i: int, j: int| 0 <= i < order.len() && 0 <= j < order.len() && i != j implies order[i]
        != order[j] by {
        if order[i] == order[j] {
            assert(m@[*pairs[i].0] == *pairs[i].1);
            assert(m@[*pairs[j].0] == *pairs[j].1);
            assert(pairs[i] == pairs[j]);
        }
    }
    assert forall|k: u8| order.to_set().contains(k) implies m@.dom().contains(k) by {
        let i = choose|i: int| 0 <= i < order.len() && order[i] == k;
        assert(m@.contains_key(*pairs[i].0));
    }
    assert forall|k: u8| m@.dom().contains(k) implies order.to_set().contains(k) by {
        assert(m@.contains_key(k));
        assert(pairs.contains((&k, &m@[k])));
        let i = choose|i: int| 0 <= i < pairs.len() && pairs[i] == (&k, &m@[k]);
        assert(order[i] == k);
    }
    assert(order.to_set() =~= m@.dom());
}

/// Whether every dataset of `h` has at least one entry, and every entry holds
/// between one and 65535 bytes.
pub open spec fn storable(h: Map<u8, Seq<Seq<u8>>>) -> bool {
    forall|k: u8|
        #![trigger h[k]]
        h.contains_key(k) ==> h[k].len() > 0 && forall|i: int|
            0 <= i < h[k].len() ==> 1 <= (#[trigger] h[k][i]).len() <= 0xFFFF
}

/// `acc` with the entries `es` appended to those of `key`.
pub open spec fn add_entries(acc: Map<u8, Seq<Seq<u8>>>, key: u8, es: Seq<Seq<u8>>) -> Map<
    u8,
    Seq<Seq<u8>>,
> {
    if es.len() == 0 {
        acc
    } else {
        acc.insert(key, entries_of(acc, key) + es)
    }
}

proof fn lemma_parse_record(key: u8, e: Seq<u8>, rest: Seq<u8>, acc: Map<u8, Seq<Seq<u8>>>)
    requires
        1 <= e.len() <= 0xFFFF,
    ensures
        parse_records(record_bytes(key, e) + rest, acc) == parse_records(
            rest,
            add_entry(acc, key, e),
        ),
{
    let buf = record_bytes(key, e) + rest;
    let l = e.len() as int;
    assert(buf[0] == 0x1C && buf[1] == 2 && buf[2] == key);
    assert(buf[3] == ((l / 256) % 256) as u8 && buf[4] == (l % 256) as u8);
    assert((l / 256) % 256 == l / 256 && (l / 256) * 256 + l % 256 == l) by (nonlinear_arith)
        requires
            0 <= l <= 0xFFFF,
    ;
    assert(record_len(buf) == l);
    assert(buf.subrange(5, 5 + l) =~= e);
    assert(buf.subrange(5 + l, buf.len() as int) =~= rest);
}

proof fn lemma_parse_key_records(
    key: u8,
    es: Seq<Seq<u8>>,
    rest: Seq<u8>,
    acc: Map<u8, Seq<Seq<u8>>>,
)
    requires
        forall|i: int| 0 <= i < es.len() ==> 1 <= (#[trigger] es[i]).len() <= 0xFFFF,
    ensures
        parse_records(key_records(key, es) + rest, acc) == parse_records(
            rest,
            add_entries(acc, key, es),
        ),
    decreases es.len(),
{
    if es.len() == 0 {
        assert(key_records(key, es) + rest =~= rest);
    } else {
        let es1 = es.drop_last();
        let e = es.last();
        assert(es[es.len() - 1] == e);
        assert(key_records(key, es) + rest =~= key_records(key, es1) + (record_bytes(key, e)
            + rest));
        assert forall|i: int| 0 <= i < es1.len() implies 1 <= (#[trigger] es1[i]).len()
            <= 0xFFFF by {
            assert(es1[i] == es[i]);
        }
        lemma_parse_key_records(key, es1, record_bytes(key, e) + rest, acc);
        lemma_parse_record(key, e, rest, add_entries(acc, key, es1));
        let base = entries_of(acc, key);
        if es1.len() == 0 {
            assert(base.push(e) =~= base + es);
        } else {
            assert(entries_of(add_entries(acc, key, es1), key) == base + es1);
            assert((base + es1).push(e) =~= base + es);
        }
        assert(add_entry(add_entries(acc, key, es1), key, e) =~= add_entries(acc, key, es));
    }
}

proof fn lemma_parse_map_records(
    order: Seq<u8>,
    m: Map<u8, Seq<Seq<u8>>>,
    rest: Seq<u8>,
    acc: Map<u8, Seq<Seq<u8>>>,
)
    requires
        order.no_duplicates(),
        storable(m),
        forall|i: int|
            0 <= i < order.len() ==> m.contains_key(#[trigger] order[i]) && !acc.contains_key(
                order[i],
            ),
    ensures
        parse_records(map_records(order, m) + rest, acc) == parse_records(
            rest,
            acc.union_prefer_right(m.restrict(order.to_set())),
        ),
    decreases order.len(),
{
    if order.len() == 0 {
        assert(map_records(order, m) + rest =~= rest);
        assert(acc.union_prefer_right(m.restrict(order.to_set())) =~= acc);
    } else {
        let o1 = order.drop_last();
        let k = order.last();
        assert(order[order.len() - 1] == k);
        assert(map_records(order, m) + rest =~= map_records(o1, m) + (key_records(k, m[k])
            + rest));
        assert forall|i: int| 0 <= i < o1.len() implies m.contains_key(#[trigger] o1[i])
            && !acc.contains_key(o1[i]) by {
            assert(o1[i] == order[i]);
        }
        lemma_parse_map_records(o1, m, key_records(k, m[k]) + rest, acc);
        let mid = acc.union_prefer_right(m.restrict(o1.to_set()));
        assert(m.contains_key(k));
        assert forall|i: int| 0 <= i < m[k].len() implies 1 <= (#[trigger] m[k][i]).len()
            <= 0xFFFF by {
        }
        lemma_parse_key_records(k, m[k], rest, mid);
        assert(!o1.to_set().contains(k)) by {
            if o1.to_set().contains(k) {
                let i = choose|i: int| 0 <= i < o1.len() && o1[i] == k;
                assert(order[i] == order[order.len() - 1]);
            }
        }
        assert(!mid.contains_key(k));
        assert(entries_of(mid, k) + m[k] =~= m[k]);
        assert(order.to_set() =~= o1.to_set().insert(k)) by {
            assert forall|x: u8| order.to_set().contains(x) implies o1.to_set().insert(k).contains(x) by {
                let i = choose|i: int| 0 <= i < order.len() && order[i] == x;
                if i < o1.len() {
                    assert(o1[i] == x);
                }
            }
            assert forall|x: u8| o1.to_set().insert(k).contains(x) implies order.to_set().contains(x) by {
                if x != k {
                    let i = choose|i: int| 0 <= i < o1.len() && o1[i] == x;
                    assert(order[i] == x);
                }
            }
        }
        assert(add_entries(mid, k, m[k]) =~= acc.union_prefer_right(
            m.restrict(order.to_set()),
        ));
    }
}

/// Reading back the records that `build_bytes` writes gives the same
/// datasets, whatever order the datasets were written in, provided every
/// dataset has an entry and every entry holds 1 to 65535 bytes.
pub proof fn lemma_iptc_round_trip(h: Map<u8, Seq<Seq<u8>>>, order: Seq<u8>)
    requires
        is_key_order(order, h),
        storable(h),
    ensures
        iptc_parse(map_records(order, h)) == h,
{
    assert forall|i: int| 0 <= i < order.len() implies h.contains_key(#[trigger] order[i])
        && !Map::<u8, Seq<Seq<u8>>>::empty().contains_key(order[i]) by {
        assert(order.to_set().contains(order[i]));
    }
    lemma_parse_map_records(order, h, Seq::empty(), Map::empty());
    assert(map_records(order, h) + Seq::<u8>::empty() =~= map_records(order, h));
    assert(Map::<u8, Seq<Seq<u8>>>::empty().union_prefer_right(h.restrict(order.to_set())) =~= h);
}

} // verus!
