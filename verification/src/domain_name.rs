//! Domain names on the wire, and the table of offsets that lets one name
//! point back into another.
//!
//! A name is a string of octets: labels, each followed by a dot. On the wire
//! a label is a length octet and its octets, and the name ends with a zero
//! octet or with a two-octet pointer to a suffix that the message already
//! holds.
use crate::buffer::{buffer_bytes, get_u8, put, put_u16, put_u8, remaining, u16_be};
use bytes::BytesMut;
use std::collections::HashMap;
use vstd::prelude::*;
use vstd::slice::slice_subrange;
use vstd::utf8::encode_utf8;

verus! {

broadcast use vstd::std_specs::hash::group_hash_axioms;

/// The octet that separates labels in a name.
pub const DOT: u8 = 0x2E;

/// Offsets below this limit fit the fourteen bits of a pointer.
pub const POINTER_LIMIT: u16 = 0x4000;

/// A length octet at or above this value starts a pointer.
pub const POINTER_TAG: u8 = 0xC0;

/// Index of the first dot of `s` at or after `from`, or the length of `s`
/// where there is none: the end of the label that starts at `from`.
pub open spec fn label_end(s: Seq<u8>, from: int) -> int
    decreases s.len() - from,
{
    if from < 0 || from >= s.len() || s[from] == DOT {
        from
    } else {
        label_end(s, from + 1)
    }
}

/// The canonical form of the labels of `s` from `from` on: each label up to
/// the first empty one, followed by a dot.
pub open spec fn canonical(s: Seq<u8>, from: int) -> Seq<u8>
    decreases s.len() - from,
{
    let end = label_end(s, from);
    if from < 0 || from >= s.len() || end <= from {
        Seq::<u8>::empty()
    } else if end >= s.len() {
        s.subrange(from, s.len() as int) + seq![DOT]
    } else {
        s.subrange(from, end) + seq![DOT] + canonical(s, end + 1)
    }
}

/// The labels of `s` from `from` on as they stand on the wire: for each
/// label up to the first empty one its length octet (the low eight bits of
/// the length) and its octets, then a zero octet.
pub open spec fn wire_labels(s: Seq<u8>, from: int) -> Seq<u8>
    decreases s.len() - from,
{
    let end = label_end(s, from);
    if from < 0 || from >= s.len() || end <= from {
        seq![0u8]
    } else if end >= s.len() {
        seq![((s.len() - from) % 256) as u8] + s.subrange(from, s.len() as int) + seq![0u8]
    } else {
        seq![((end - from) % 256) as u8] + s.subrange(from, end) + wire_labels(s, end + 1)
    }
}

/// The word of a pointer to `offset`.
pub open spec fn pointer_word(offset: u16) -> u16 {
    offset | 0xC000
}

/// The offset that a pointer names, from its two octets.
pub open spec fn pointer_offset(tag: u8, low: u8) -> u16
    recommends
        tag >= POINTER_TAG,
{
    ((tag - POINTER_TAG) * 256 + low) as u16
}

/// What a lookup table holds.
pub struct TableView {
    /// Offset in the message of the next octet to be read or written,
    /// held at 65535 once the message is longer.
    pub pos: u16,
    /// For each registered offset the name suffix that starts there.
    pub decompression: Map<u16, Seq<u8>>,
    /// For each registered suffix the offset where it was first seen.
    pub compression: Map<Seq<u8>, u16>,
}

impl TableView {
    /// The table of a message whose names start at `pos`.
    pub open spec fn empty(pos: u16) -> TableView {
        TableView { pos, decompression: Map::empty(), compression: Map::empty() }
    }

    /// Every suffix that can be compressed points at an offset a pointer can
    /// hold, and that offset resolves to the suffix.
    pub open spec fn coherent(self) -> bool {
        forall|n: Seq<u8>| #[trigger]
            self.compression.contains_key(n) ==> self.compression[n] < POINTER_LIMIT
                && self.decompression.contains_key(self.compression[n])
                && self.decompression[self.compression[n]] == n
    }

    /// The table after `suffix` was seen at `offset`. An offset that no
    /// pointer can hold, or that is taken, changes nothing; a suffix that is
    /// known keeps its first offset.
    pub open spec fn with_entry(self, offset: int, suffix: Seq<u8>) -> TableView {
        if offset < 0 || offset >= POINTER_LIMIT || self.decompression.contains_key(offset as u16) {
            self
        } else {
            TableView {
                pos: self.pos,
                decompression: self.decompression.insert(offset as u16, suffix),
                compression: if self.compression.contains_key(suffix) {
                    self.compression
                } else {
                    self.compression.insert(suffix, offset as u16)
                },
            }
        }
    }

    /// The table after the suffixes of the canonical name `c` that start at
    /// a label at or after `from` were seen, the name starting at the
    /// current position.
    pub open spec fn registered_from(self, c: Seq<u8>, from: int) -> TableView
        decreases c.len() - from,
    {
        let end = label_end(c, from);
        if from < 0 || from >= c.len() {
            self
        } else if end < from || end >= c.len() {
            self.with_entry(self.pos + from, c.skip(from))
        } else {
            self.with_entry(self.pos + from, c.skip(from)).registered_from(c, end + 1)
        }
    }

    /// The table after `name` was seen at the current position: each suffix
    /// of its canonical form that starts at a label is entered at the offset
    /// where it starts.
    pub open spec fn registered(self, name: Seq<u8>) -> TableView {
        self.registered_from(canonical(name, 0), 0)
    }

    /// The table after `n` more octets of the message went by.
    pub open spec fn advanced(self, n: int) -> TableView {
        TableView {
            pos: if self.pos + n > 0xFFFF {
                0xFFFFu16
            } else {
                (self.pos + n) as u16
            },
            ..self
        }
    }
}

/// What reading a name gives: the name, the number of octets read, and
/// whether the name ended with the zero octet rather than with a pointer.
pub struct ParsedName {
    pub name: Seq<u8>,
    pub used: int,
    pub rooted: bool,
}

/// Reads the labels of a name from `b` at index `at`, after the labels
/// before it gave `acc`. A zero octet ends the name. An octet of 192 or more
/// is the first half of a pointer: the suffix the table holds for its offset
/// is appended and ends the name. Any other octet is the length of a label,
/// which is appended with a dot. There is no result where `b` ends early or
/// a pointer names an offset the table does not hold.
pub open spec fn parse_labels(b: Seq<u8>, at: int, t: TableView, acc: Seq<u8>) -> Option<
    ParsedName,
>
    decreases b.len() - at,
{
    if at < 0 || at >= b.len() {
        None
    } else if b[at] == 0 {
        Some(ParsedName { name: acc, used: at + 1, rooted: true })
    } else if b[at] >= POINTER_TAG {
        if at + 1 >= b.len() {
            None
        } else if t.decompression.contains_key(pointer_offset(b[at], b[at + 1])) {
            Some(
                ParsedName {
                    name: acc + t.decompression[pointer_offset(b[at], b[at + 1])],
                    used: at + 2,
                    rooted: false,
                },
            )
        } else {
            None
        }
    } else if at + 1 + b[at] > b.len() {
        None
    } else {
        parse_labels(b, at + 1 + b[at], t, acc + b.subrange(at + 1, at + 1 + b[at]) + seq![DOT])
    }
}

/// Where reading a name stopped, and what the name held then.
pub struct ReadStop {
    pub used: int,
    pub name: Seq<u8>,
}

/// Where reading a name from `b` at index `at` stops, and what the name
/// holds then, whether the octets hold a name or not. Reading stops behind
/// the zero octet or the pointer that ends the name; or at the end of `b`;
/// or behind a length octet whose label `b` does not hold; or behind a
/// pointer whose offset the table does not hold.
pub open spec fn read_stop(b: Seq<u8>, at: int, t: TableView, acc: Seq<u8>) -> ReadStop
    decreases b.len() - at,
{
    if at < 0 || at >= b.len() {
        ReadStop { used: at, name: acc }
    } else if b[at] == 0 {
        ReadStop { used: at + 1, name: acc }
    } else if b[at] >= POINTER_TAG {
        if at + 1 >= b.len() {
            ReadStop { used: at + 1, name: acc }
        } else if t.decompression.contains_key(pointer_offset(b[at], b[at + 1])) {
            ReadStop {
                used: at + 2,
                name: acc + t.decompression[pointer_offset(b[at], b[at + 1])],
            }
        } else {
            ReadStop { used: at + 2, name: acc }
        }
    } else if at + 1 + b[at] > b.len() {
        ReadStop { used: at + 1, name: acc }
    } else {
        read_stop(b, at + 1 + b[at], t, acc + b.subrange(at + 1, at + 1 + b[at]) + seq![DOT])
    }
}

/// Where the octets hold a name, reading stops behind it with the name.
pub proof fn lemma_read_stop(b: Seq<u8>, at: int, t: TableView, acc: Seq<u8>)
    requires
        0 <= at,
    ensures
        at <= read_stop(b, at, t, acc).used,
        at <= b.len() ==> read_stop(b, at, t, acc).used <= b.len(),
        parse_labels(b, at, t, acc).is_some() ==> parse_labels(b, at, t, acc).unwrap().used
            == read_stop(b, at, t, acc).used && parse_labels(b, at, t, acc).unwrap().name
            == read_stop(b, at, t, acc).name,
    decreases b.len() - at,
{
    if at < b.len() && b[at] != 0 && b[at] < POINTER_TAG && at + 1 + b[at] <= b.len() {
        lemma_read_stop(
            b,
            at + 1 + b[at],
            t,
            acc + b.subrange(at + 1, at + 1 + b[at]) + seq![DOT],
        );
    }
}

/// The table after a name was read from it: registered where the name ended
/// with the zero octet, and moved on by the octets read.
pub open spec fn table_after_read(t: TableView, p: ParsedName) -> TableView {
    if p.rooted {
        t.registered(p.name).advanced(p.used)
    } else {
        t.advanced(p.used)
    }
}

/// The octets that writing `name` appends: a pointer where the table knows
/// the whole name, its labels where not.
pub open spec fn name_wire(name: Seq<u8>, t: TableView) -> Seq<u8> {
    if t.compression.contains_key(name) {
        u16_be(pointer_word(t.compression[name]))
    } else {
        wire_labels(name, 0)
    }
}

/// The table after `name` was written: unchanged but for the position where
/// a pointer was written, with the name registered where its labels were.
pub open spec fn table_after_write(name: Seq<u8>, t: TableView) -> TableView {
    if t.compression.contains_key(name) {
        t.advanced(2)
    } else {
        t.registered(name).advanced(wire_labels(name, 0).len() as int)
    }
}

/// The map that a list of entries stands for: the first entry of a suffix
/// gives its offset.
pub open spec fn entries_map(entries: Seq<(Vec<u8>, u16)>) -> Map<Seq<u8>, u16>
    decreases entries.len(),
{
    if entries.len() == 0 {
        Map::empty()
    } else {
        let rest = entries_map(entries.drop_last());
        let e = entries.last();
        if rest.contains_key(e.0@) {
            rest
        } else {
            rest.insert(e.0@, e.1)
        }
    }
}

proof fn lemma_entries_map_absent(entries: Seq<(Vec<u8>, u16)>, key: Seq<u8>)
    requires
        forall|j: int| 0 <= j < entries.len() ==> (#[trigger] entries[j]).0@ != key,
    ensures
        !entries_map(entries).contains_key(key),
    decreases entries.len(),
{
    if entries.len() > 0 {
        lemma_entries_map_absent(entries.drop_last(), key);
    }
}

proof fn lemma_entries_map_first(entries: Seq<(Vec<u8>, u16)>, key: Seq<u8>, i: int)
    requires
        0 <= i < entries.len(),
        entries[i].0@ == key,
        forall|j: int| 0 <= j < i ==> (#[trigger] entries[j]).0@ != key,
    ensures
        entries_map(entries).contains_key(key),
        entries_map(entries)[key] == entries[i].1,
    decreases entries.len(),
{
    let rest = entries.drop_last();
    if i == entries.len() - 1 {
        lemma_entries_map_absent(rest, key);
    } else {
        lemma_entries_map_first(rest, key, i);
    }
}

proof fn lemma_label_end(s: Seq<u8>, from: int, end: int)
    requires
        0 <= from <= end <= s.len(),
        forall|j: int| from <= j < end ==> s[j] != DOT,
        end == s.len() || s[end] == DOT,
    ensures
        label_end(s, from) == end,
    decreases end - from,
{
    if from < end {
        lemma_label_end(s, from + 1, end);
    }
}

/// Index of the first dot of `s` at or after `from`, or the length of `s`.
fn find_label_end(s: &[u8], from: usize) -> (end: usize)
    requires
        from <= s@.len(),
    ensures
        end == label_end(s@, from as int),
        from <= end <= s@.len(),
{
    let mut end: usize = from;
    while end < s.len() && s[end] != DOT
        invariant
            from <= end <= s@.len(),
            forall|j: int| from <= j < end ==> s@[j] != DOT,
        decreases s@.len() - end,
    {
        end = end + 1;
    }
    proof {
        lemma_label_end(s@, from as int, end as int);
    }
    end
}

/// Appends the octets of `src` from `from` up to `to` to `dst`.
fn append_range(dst: &mut Vec<u8>, src: &[u8], from: usize, to: usize)
    requires
        from <= to <= src@.len(),
    ensures
        final(dst)@ == old(dst)@ + src@.subrange(from as int, to as int),
{
    let mut k: usize = from;
    while k < to
        invariant
            from <= k <= to <= src@.len(),
            dst@ == old(dst)@ + src@.subrange(from as int, k as int),
        decreases to - k,
    {
        dst.push(src[k]);
        k = k + 1;
    }
}

/// The canonical form of a name: its labels up to the first empty one, each
/// followed by a dot.
fn canonical_form(s: &[u8]) -> (c: Vec<u8>)
    ensures
        c@ == canonical(s@, 0),
{
    let mut c: Vec<u8> = Vec::new();
    let mut from: usize = 0;
    while from < s.len()
        invariant
            from <= s@.len(),
            c@ + canonical(s@, from as int) == canonical(s@, 0),
        decreases s@.len() - from,
    {
        let end: usize = find_label_end(s, from);
        if end == from {
            return c;
        }
        let ghost before = c@;
        append_range(&mut c, s, from, end);
        c.push(DOT);
        proof {
            if end < s@.len() {
                let rest = canonical(s@, end as int + 1);
                assert((before + (s@.subrange(from as int, end as int) + seq![DOT])) + rest
                    =~= before + (s@.subrange(from as int, end as int) + seq![DOT] + rest));
            }
        }
        if end == s.len() {
            return c;
        }
        from = end + 1;
    }
    c
}

/// A domain name: its labels, each followed by a dot.
#[derive(Debug, PartialEq, Eq)]
pub struct DomainName(Vec<u8>);

impl View for DomainName {
    type V = Seq<u8>;

    closed spec fn view(&self) -> Seq<u8> {
        self.0@
    }
}

impl Clone for DomainName {
    fn clone(&self) -> (r: Self)
        ensures
            r@ == self@,
    {
        let mut octets: Vec<u8> = Vec::new();
        append_range(&mut octets, self.0.as_slice(), 0, self.0.len());
        DomainName(octets)
    }
}

/// What `from` gives is said by its own `ensures`, over the octets of the
/// name: two names with the same octets are the same name, which equality
/// of the structures would not say.
impl vstd::std_specs::convert::FromSpecImpl<&str> for DomainName {
    open spec fn obeys_from_spec() -> bool {
        false
    }

    open spec fn from_spec(s: &str) -> Self {
        arbitrary()
    }
}

impl From<&str> for DomainName {
    /// The name whose octets are the UTF-8 form of `s`.
    fn from(s: &str) -> (r: Self)
        ensures
            r@ == encode_utf8(s@),
    {
        Self::from_octets(s.as_bytes())
    }
}

/// What `from` gives is said by its own `ensures`, as for `&str`.
impl vstd::std_specs::convert::FromSpecImpl<String> for DomainName {
    open spec fn obeys_from_spec() -> bool {
        false
    }

    open spec fn from_spec(s: String) -> Self {
        arbitrary()
    }
}

impl From<String> for DomainName {
    /// The name whose octets are the UTF-8 form of `s`.
    fn from(s: String) -> (r: Self)
        ensures
            r@ == encode_utf8(s@),
    {
        Self::from_octets(s.as_str().as_bytes())
    }
}

impl DomainName {
    /// The empty name: the root.
    pub fn new() -> (r: Self)
        ensures
            r@ == Seq::<u8>::empty(),
    {
        DomainName(Vec::new())
    }

    /// The name whose octets are those of `octets`.
    pub fn from_octets(octets: &[u8]) -> (r: Self)
        ensures
            r@ == octets@,
    {
        let mut v: Vec<u8> = Vec::new();
        append_range(&mut v, octets, 0, octets.len());
        DomainName(v)
    }

    /// The octets of the name.
    pub fn as_octets(&self) -> (r: &[u8])
        ensures
            r@ == self@,
    {
        self.0.as_slice()
    }
}

/// Whether two slices hold the same octets.
fn octets_equal(a: &[u8], b: &[u8]) -> (r: bool)
    ensures
        r == (a@ == b@),
{
    if a.len() != b.len() {
        return false;
    }
    let mut k: usize = 0;
    while k < a.len()
        invariant
            a@.len() == b@.len(),
            k <= a@.len(),
            forall|j: int| 0 <= j < k ==> a@[j] == b@[j],
        decreases a@.len() - k,
    {
        if a[k] != b[k] {
            return false;
        }
        k = k + 1;
    }
    assert(a@ =~= b@);
    true
}

/// The decoding side of the table: the current position, and for each
/// registered offset the suffix that starts there.
struct Decompression {
    pos: u16,
    map: HashMap<u16, Vec<u8>>,
}

impl Decompression {
    spec fn spec_map(&self) -> Map<u16, Seq<u8>> {
        Map::new(|k: u16| self.map@.contains_key(k), |k: u16| self.map@[k]@)
    }

    fn new(pos: u16) -> (r: Self)
        ensures
            r.pos == pos,
            r.spec_map() == Map::<u16, Seq<u8>>::empty(),
    {
        let r = Decompression { pos, map: HashMap::new() };
        r
    }
}

/// The encoding side of the table: the registered suffixes with their
/// offsets, in the order in which they were first seen.
struct Compression {
    entries: Vec<(Vec<u8>, u16)>,
}

impl Compression {
    spec fn spec_map(&self) -> Map<Seq<u8>, u16> {
        entries_map(self.entries@)
    }

    fn new() -> (r: Self)
        ensures
            r.spec_map() == Map::<Seq<u8>, u16>::empty(),
    {
        Compression { entries: Vec::new() }
    }

    fn get(&self, key: &[u8]) -> (r: Option<&u16>)
        ensures
            match r {
                Some(offset) => self.spec_map().contains_key(key@) && *offset
                    == self.spec_map()[key@],
                None => !self.spec_map().contains_key(key@),
            },
    {
        let mut i: usize = 0;
        while i < self.entries.len()
            invariant
                i <= self.entries@.len(),
                forall|j: int| 0 <= j < i ==> (#[trigger] self.entries@[j]).0@ != key@,
            decreases self.entries@.len() - i,
        {
            if octets_equal(self.entries[i].0.as_slice(), key) {
                proof {
                    lemma_entries_map_first(self.entries@, key@, i as int);
                }
                return Some(&self.entries[i].1);
            }
            i = i + 1;
        }
        proof {
            lemma_entries_map_absent(self.entries@, key@);
        }
        None
    }

    fn insert_absent(&mut self, key: Vec<u8>, offset: u16)
        ensures
            final(self).spec_map() == if old(self).spec_map().contains_key(key@) {
                old(self).spec_map()
            } else {
                old(self).spec_map().insert(key@, offset)
            },
    {
        if self.get(key.as_slice()).is_none() {
            let ghost before = self.entries@;
            self.entries.push((key, offset));
            assert(self.entries@.drop_last() =~= before);
        }
    }
}

/// The offsets of the names of one message, for compression and
/// decompression. A table serves one encoding or one decoding of one
/// message.
pub struct LookupTable {
    decompression: Decompression,
    compression: Compression,
}

impl View for LookupTable {
    type V = TableView;

    closed spec fn view(&self) -> TableView {
        TableView {
            pos: self.decompression.pos,
            decompression: self.decompression.spec_map(),
            compression: self.compression.spec_map(),
        }
    }
}

impl LookupTable {
    /// An empty table for a message whose names start at offset `pos`.
    pub fn new(pos: u16) -> (r: Self)
        ensures
            r@ == TableView::empty(pos),
    {
        LookupTable { decompression: Decompression::new(pos), compression: Compression::new() }
    }

    /// The offset of the next octet of the message.
    pub fn position(&self) -> (r: u16)
        ensures
            r == self@.pos,
    {
        self.decompression.pos
    }

    /// Moves the position on by `n` octets.
    pub fn advance(&mut self, n: usize)
        ensures
            final(self)@ == old(self)@.advanced(n as int),
    {
        let pos: u16 = self.decompression.pos;
        if n > 0xFFFF || n > (0xFFFF - pos) as usize {
            self.decompression.pos = 0xFFFF;
        } else {
            self.decompression.pos = pos + n as u16;
        }
    }

    /// Enters the suffix of `c` that starts at index `from`.
    fn enter(&mut self, c: &[u8], from: usize)
        requires
            from <= c@.len(),
        ensures
            final(self)@ == old(self)@.with_entry(old(self)@.pos + from, c@.skip(from as int)),
    {
        let pos: usize = self.decompression.pos as usize;
        if pos >= 0x4000 || from >= 0x4000 - pos {
            return;
        }
        let offset: u16 = (pos + from) as u16;
        if self.decompression.map.get(&offset).is_some() {
            return;
        }
        let mut suffix: Vec<u8> = Vec::new();
        append_range(&mut suffix, c, from, c.len());
        let mut key: Vec<u8> = Vec::new();
        append_range(&mut key, c, from, c.len());
        let ghost before = self.decompression.spec_map();
        self.decompression.map.insert(offset, suffix);
        assert(self.decompression.spec_map() =~= before.insert(offset, c@.skip(from as int)));
        self.compression.insert_absent(key, offset);
    }

    /// Registers `domain_name` as seen at the current position: each suffix
    /// of its canonical form that starts at a label is entered with the
    /// offset at which it starts.
    pub fn insert(&mut self, domain_name: &DomainName)
        ensures
            final(self)@ == old(self)@.registered(domain_name@),
    {
        let c: Vec<u8> = canonical_form(domain_name.0.as_slice());
        let mut from: usize = 0;
        while from < c.len()
            invariant
                from <= c@.len(),
                self@.pos == old(self)@.pos,
                self@.registered_from(c@, from as int) == old(self)@.registered_from(c@, 0),
            decreases c@.len() - from,
        {
            let end: usize = find_label_end(c.as_slice(), from);
            self.enter(c.as_slice(), from);
            if end >= c.len() {
                from = c.len();
            } else {
                from = end + 1;
            }
        }
    }

    /// The suffix registered at offset `pos`, if there is one.
    pub fn decompress(&self, pos: u16) -> (r: Option<&Vec<u8>>)
        ensures
            match r {
                Some(suffix) => self@.decompression.contains_key(pos) && suffix@
                    == self@.decompression[pos],
                None => !self@.decompression.contains_key(pos),
            },
    {
        self.decompression.map.get(&pos)
    }

    /// The offset registered for the whole of `domain_name`, if there is one.
    pub fn compress(&self, domain_name: &DomainName) -> (r: Option<&u16>)
        ensures
            match r {
                Some(offset) => self@.compression.contains_key(domain_name@) && *offset
                    == self@.compression[domain_name@],
                None => !self@.compression.contains_key(domain_name@),
            },
    {
        self.compression.get(domain_name.0.as_slice())
    }
}

impl DomainName {
    /// Appends the name to `buf`: a pointer where the table knows the whole
    /// name, else its labels, each with its length octet, and a zero octet.
    /// The table then holds the name at the offset where its labels began.
    pub fn write_bytes(&self, buf: &mut BytesMut, lookup_table: &mut LookupTable)
        ensures
            buffer_bytes(*final(buf)) == buffer_bytes(*old(buf)) + name_wire(
                self@,
                old(lookup_table)@,
            ),
            final(lookup_table)@ == table_after_write(self@, old(lookup_table)@),
    {
        let offset: Option<u16> = match lookup_table.compress(self) {
            Some(offset) => Some(*offset),
            None => None,
        };
        if let Some(offset) = offset {
            put_u16(buf, offset | 0xC000);
            lookup_table.advance(2);
            return;
        }
        let ghost before = buffer_bytes(*buf);
        let s: &[u8] = self.0.as_slice();
        let mut from: usize = 0;
        let start: usize = remaining(buf);
        let mut done: bool = false;
        while !done
            invariant
                from <= s@.len(),
                s@ == self@,
                !done ==> buffer_bytes(*buf) + wire_labels(s@, from as int) == before
                    + wire_labels(s@, 0),
                done ==> buffer_bytes(*buf) == before + wire_labels(s@, 0),
            decreases s@.len() - from + if done { 0int } else { 1int },
        {
            let end: usize = if from < s.len() {
                find_label_end(s, from)
            } else {
                from
            };
            let ghost now = buffer_bytes(*buf);
            if end == from {
                put_u8(buf, 0);
                done = true;
            } else {
                let ghost len_octet = ((end - from) % 256) as u8;
                let ghost label = s@.subrange(from as int, end as int);
                put_u8(buf, ((end - from) % 256) as u8);
                put(buf, slice_subrange(s, from, end));
                if end == s.len() {
                    put_u8(buf, 0);
                    done = true;
                } else {
                    proof {
                        let rest = wire_labels(s@, end as int + 1);
                        assert((now + (seq![len_octet] + label)) + rest =~= now + (seq![len_octet]
                            + label + rest));
                    }
                    from = end + 1;
                }
            }
        }
        let written: usize = remaining(buf) - start;
        lookup_table.insert(self);
        lookup_table.advance(written);
    }
}

/// What reading a name from `b` gives, the table at `t` and the name so far
/// `acc`; none where the octets do not hold a name.
pub open spec fn parse_name(b: Seq<u8>, t: TableView, acc: Seq<u8>) -> Option<ParsedName> {
    parse_labels(b, 0, t, acc)
}

impl DomainName {
    /// Reads a name off the front of `buf` and appends it to `self`, if the
    /// octets hold one. On success the table holds the whole of `self` at
    /// the offset where reading began, unless a pointer ended the name, and
    /// has moved on by the octets read. On failure the table is unchanged.
    /// Either way `buf` and `self` are left where reading stopped.
    pub fn try_read_bytes(&mut self, buf: &mut BytesMut, lookup_table: &mut LookupTable) -> (ok:
        bool)
        ensures
            ok == parse_name(buffer_bytes(*old(buf)), old(lookup_table)@, old(self)@).is_some(),
            ok ==> {
                let p = parse_name(
                    buffer_bytes(*old(buf)),
                    old(lookup_table)@,
                    old(self)@,
                ).unwrap();
                &&& final(self)@ == p.name
                &&& 0 <= p.used <= buffer_bytes(*old(buf)).len()
                &&& buffer_bytes(*final(buf)) == buffer_bytes(*old(buf)).skip(p.used)
                &&& final(lookup_table)@ == table_after_read(old(lookup_table)@, p)
            },
            !ok ==> final(lookup_table)@ == old(lookup_table)@,
            ({
                let stop = read_stop(buffer_bytes(*old(buf)), 0, old(lookup_table)@, old(self)@);
                &&& final(self)@ == stop.name
                &&& 0 <= stop.used <= buffer_bytes(*old(buf)).len()
                &&& buffer_bytes(*final(buf)) == buffer_bytes(*old(buf)).skip(stop.used)
            }),
    {
        let ghost b = buffer_bytes(*buf);
        let ghost t = lookup_table@;
        let ghost goal = parse_labels(b, 0, t, self@);
        let ghost stop = read_stop(b, 0, t, self@);
        let total: usize = remaining(buf);
        let mut used: usize = 0;
        loop
            invariant
                used <= b.len() == total,
                b == buffer_bytes(*old(buf)),
                t == old(lookup_table)@,
                goal == parse_name(b, t, old(self)@),
                stop == read_stop(b, 0, t, old(self)@),
                read_stop(b, used as int, t, self@) == stop,
                buffer_bytes(*buf) == b.skip(used as int),
                lookup_table@ == t,
                parse_labels(b, used as int, t, self@) == goal,
            decreases b.len() - used,
        {
            if remaining(buf) < 1 {
                return false;
            }
            let len: u8 = get_u8(buf);
            if len == 0 {
                lookup_table.insert(self);
                lookup_table.advance(used + 1);
                return true;
            }
            if (len & 0xC0) == 0xC0 {
                assert(len >= 0xC0) by (bit_vector)
                    requires
                        (len & 0xC0) == 0xC0,
                ;
                if remaining(buf) < 1 {
                    return false;
                }
                let next: u8 = get_u8(buf);
                let pos: u16 = (((len as u16) ^ 0xC0) << 8) | (next as u16);
                assert(pos == pointer_offset(len, next)) by {
                    assert((((len as u16) ^ 0xC0) << 8) | (next as u16) == ((len - 0xC0) as u16)
                        * 256 + (next as u16)) by (bit_vector)
                        requires
                            len >= 0xC0,
                    ;
                }
                match lookup_table.decompress(pos) {
                    None => {
                        return false;
                    },
                    Some(label) => {
                        append_range(&mut self.0, label.as_slice(), 0, label.len());
                    },
                }
                lookup_table.advance(used + 2);
                return true;
            }
            assert(len < 0xC0) by (bit_vector)
                requires
                    (len & 0xC0) != 0xC0,
            ;
            if remaining(buf) < len as usize {
                return false;
            }
            let ghost before = self.0@;
            let ghost start = used as int + 1;
            let mut i: u8 = 0;
            while i < len
                invariant
                    i <= len,
                    0 <= start,
                    start + len <= b.len(),
                    buffer_bytes(*buf) == b.skip(start + i),
                    self.0@ == before + b.subrange(start, start + i),
                    lookup_table@ == t,
                decreases len - i,
            {
                let c: u8 = get_u8(buf);
                self.0.push(c);
                i = i + 1;
            }
            self.0.push(DOT);
            assert(self.0@ =~= before + b.subrange(start, start + len) + seq![DOT]);
            used = used + 1 + len as usize;
        }
    }

    /// Reads a name off the front of `buf` and appends it to `self`. The
    /// octets must hold a name.
    pub fn read_bytes(&mut self, buf: &mut BytesMut, lookup_table: &mut LookupTable)
        requires
            parse_name(buffer_bytes(*old(buf)), old(lookup_table)@, old(self)@).is_some(),
        ensures
            ({
                let p = parse_name(
                    buffer_bytes(*old(buf)),
                    old(lookup_table)@,
                    old(self)@,
                ).unwrap();
                &&& final(self)@ == p.name
                &&& buffer_bytes(*final(buf)) == buffer_bytes(*old(buf)).skip(p.used)
                &&& final(lookup_table)@ == table_after_read(old(lookup_table)@, p)
            }),
    {
        self.try_read_bytes(buf, lookup_table);
    }

    /// Reads a name off the front of `buf`, if the octets hold one.
    pub fn try_from_bytes(buf: &mut BytesMut, lookup_table: &mut LookupTable) -> (r: Option<Self>)
        ensures
            r.is_some() == parse_name(
                buffer_bytes(*old(buf)),
                old(lookup_table)@,
                Seq::<u8>::empty(),
            ).is_some(),
            r.is_some() ==> {
                let p = parse_name(
                    buffer_bytes(*old(buf)),
                    old(lookup_table)@,
                    Seq::<u8>::empty(),
                ).unwrap();
                &&& r.unwrap()@ == p.name
                &&& 0 <= p.used <= buffer_bytes(*old(buf)).len()
                &&& buffer_bytes(*final(buf)) == buffer_bytes(*old(buf)).skip(p.used)
                &&& final(lookup_table)@ == table_after_read(old(lookup_table)@, p)
            },
            r.is_none() ==> final(lookup_table)@ == old(lookup_table)@,
            ({
                let stop = read_stop(
                    buffer_bytes(*old(buf)),
                    0,
                    old(lookup_table)@,
                    Seq::<u8>::empty(),
                );
                &&& 0 <= stop.used <= buffer_bytes(*old(buf)).len()
                &&& buffer_bytes(*final(buf)) == buffer_bytes(*old(buf)).skip(stop.used)
            }),
    {
        let mut domain_name = Self::new();
        if domain_name.try_read_bytes(buf, lookup_table) {
            Some(domain_name)
        } else {
            None
        }
    }

    /// Reads a name off the front of `buf`. The octets must hold a name.
    pub fn from_bytes(buf: &mut BytesMut, lookup_table: &mut LookupTable) -> (r: Self)
        requires
            parse_name(
                buffer_bytes(*old(buf)),
                old(lookup_table)@,
                Seq::<u8>::empty(),
            ).is_some(),
        ensures
            ({
                let p = parse_name(
                    buffer_bytes(*old(buf)),
                    old(lookup_table)@,
                    Seq::<u8>::empty(),
                ).unwrap();
                &&& r@ == p.name
                &&& buffer_bytes(*final(buf)) == buffer_bytes(*old(buf)).skip(p.used)
                &&& final(lookup_table)@ == table_after_read(old(lookup_table)@, p)
            }),
    {
        let mut domain_name = Self::new();
        domain_name.read_bytes(buf, lookup_table);
        domain_name
    }
}

} // verus!
