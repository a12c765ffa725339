//! What holds of names on the wire: a name that was written is read back,
//! the table stays sound, and a name that was written in full is known to
//! the table, with its suffixes, at the offsets where they stand.
use crate::buffer::u16_be;
use crate::domain_name::{
    canonical, label_end, name_wire, parse_labels, parse_name, pointer_offset, pointer_word,
    table_after_read, table_after_write, wire_labels, ParsedName, TableView, DOT, POINTER_LIMIT,
};
use vstd::prelude::*;

verus! {

/// Whether the octets of `s` from `from` on are labels of 1 to 63 octets,
/// each followed by a dot.
pub open spec fn well_formed_from(s: Seq<u8>, from: int) -> bool
    decreases s.len() - from,
{
    let end = label_end(s, from);
    if from < 0 || from > s.len() {
        false
    } else if from == s.len() {
        true
    } else if from < end && end < s.len() {
        end - from <= 63 && well_formed_from(s, end + 1)
    } else {
        false
    }
}

/// Whether `s` is a name in canonical form whose labels fit the wire:
/// labels of 1 to 63 octets, each followed by a dot. The empty name, the
/// root, is one.
pub open spec fn well_formed(s: Seq<u8>) -> bool {
    well_formed_from(s, 0)
}

/// The end of a label is at or after its start and within the name, no dot
/// stands before it, and a dot stands at it unless the name ends there.
pub proof fn lemma_label_end_bounds(s: Seq<u8>, from: int)
    requires
        0 <= from <= s.len(),
    ensures
        from <= label_end(s, from) <= s.len(),
        forall|j: int| from <= j < label_end(s, from) ==> s[j] != DOT,
        label_end(s, from) < s.len() ==> s[label_end(s, from)] == DOT,
    decreases s.len() - from,
{
    if from < s.len() && s[from] != DOT {
        lemma_label_end_bounds(s, from + 1);
    }
}

/// Adding an entry keeps a coherent table coherent.
pub proof fn lemma_with_entry_coherent(t: TableView, offset: int, suffix: Seq<u8>)
    requires
        t.coherent(),
    ensures
        t.with_entry(offset, suffix).coherent(),
{
}

/// Registering the suffixes of a name keeps a coherent table coherent.
pub proof fn lemma_registered_from_coherent(t: TableView, c: Seq<u8>, from: int)
    requires
        t.coherent(),
    ensures
        t.registered_from(c, from).coherent(),
        t.registered_from(c, from).pos == t.pos,
    decreases c.len() - from,
{
    if 0 <= from < c.len() {
        let end = label_end(c, from);
        let next = t.with_entry(t.pos + from, c.skip(from));
        lemma_with_entry_coherent(t, t.pos + from, c.skip(from));
        if from <= end < c.len() {
            lemma_registered_from_coherent(next, c, end + 1);
        }
    }
}

/// Writing a name keeps a coherent table coherent.
pub proof fn lemma_write_coherent(name: Seq<u8>, t: TableView)
    requires
        t.coherent(),
    ensures
        table_after_write(name, t).coherent(),
{
    lemma_registered_from_coherent(t, canonical(name, 0), 0);
}

/// The labels of a well-formed name, written behind `before` and followed
/// by `rest`, are read back as the rest of the name.
proof fn lemma_labels_round_trip(
    name: Seq<u8>,
    from: int,
    before: Seq<u8>,
    rest: Seq<u8>,
    t: TableView,
)
    requires
        well_formed_from(name, from),
    ensures
        parse_labels(
            before + wire_labels(name, from) + rest,
            before.len() as int,
            t,
            name.take(from),
        ) == Some(
            ParsedName {
                name,
                used: (before.len() + wire_labels(name, from).len()) as int,
                rooted: true,
            },
        ),
    decreases name.len() - from,
{
    let w = wire_labels(name, from);
    let b = before + w + rest;
    let at = before.len() as int;
    lemma_label_end_bounds(name, from);
    if from == name.len() {
        assert(name.take(from) =~= name);
    } else {
        let end = label_end(name, from);
        let len = end - from;
        let label = name.subrange(from, end);
        let tail = wire_labels(name, end + 1);
        assert(b.subrange(at + 1, at + 1 + len) =~= label);
        assert(name.take(from) + label + seq![DOT] =~= name.take(end + 1));
        let before2 = before + seq![len as u8] + label;
        assert(before2 + tail + rest =~= b);
        lemma_labels_round_trip(name, end + 1, before2, rest, t);
    }
}

/// The two octets of a pointer name the offset it was made from.
pub proof fn lemma_pointer_round_trip(offset: u16)
    requires
        offset < POINTER_LIMIT,
    ensures
        u16_be(pointer_word(offset)).len() == 2,
        u16_be(pointer_word(offset))[0] >= 0xC0,
        pointer_offset(u16_be(pointer_word(offset))[0], u16_be(pointer_word(offset))[1])
            == offset,
{
    let w = offset | 0xC000;
    assert(w == offset + 0xC000) by (bit_vector)
        requires
            w == offset | 0xC000,
            offset < 0x4000,
    ;
}

/// A well-formed name written with a coherent table is read back with that
/// table, whatever follows it on the wire: reading gives the name, takes
/// exactly the octets written, and leaves the table as writing did.
pub proof fn lemma_name_round_trip(name: Seq<u8>, t: TableView, rest: Seq<u8>)
    requires
        well_formed(name),
        t.coherent(),
    ensures
        parse_name(name_wire(name, t) + rest, t, Seq::<u8>::empty()).is_some(),
        ({
            let p = parse_name(name_wire(name, t) + rest, t, Seq::<u8>::empty()).unwrap();
            &&& p.name == name
            &&& p.used == name_wire(name, t).len()
            &&& table_after_read(t, p) == table_after_write(name, t)
        }),
{
    if t.compression.contains_key(name) {
        lemma_pointer_round_trip(t.compression[name]);
    } else {
        lemma_labels_round_trip(name, 0, Seq::<u8>::empty(), rest, t);
    }
}

/// Whether every registered offset lies before the current position, as
/// it does while the position follows the message.
pub open spec fn offsets_behind(t: TableView) -> bool {
    forall|k: u16| #[trigger] t.decompression.contains_key(k) ==> k < t.pos
}

/// Whether a label of `s` starts at index `i`.
pub open spec fn label_start(s: Seq<u8>, i: int) -> bool {
    0 <= i < s.len() && (i == 0 || s[i - 1] == DOT)
}

/// A well-formed name is its own canonical form.
pub proof fn lemma_well_formed_canonical(s: Seq<u8>, from: int)
    requires
        well_formed_from(s, from),
    ensures
        canonical(s, from) == s.skip(from),
    decreases s.len() - from,
{
    lemma_label_end_bounds(s, from);
    if from < s.len() {
        lemma_well_formed_canonical(s, label_end(s, from) + 1);
    }
}

/// The labels of a name take one octet more on the wire than its canonical
/// form has.
pub proof fn lemma_wire_length(s: Seq<u8>, from: int)
    ensures
        wire_labels(s, from).len() == canonical(s, from).len() + 1,
    decreases s.len() - from,
{
    let end = label_end(s, from);
    if 0 <= from < s.len() {
        lemma_label_end_bounds(s, from);
        if from < end && end < s.len() {
            lemma_wire_length(s, end + 1);
        }
    }
}

/// Registering a name changes no entry that the table holds, and enters
/// offsets only from the current position up to the end of the name.
pub proof fn lemma_registered_from_keeps(t: TableView, c: Seq<u8>, from: int)
    requires
        0 <= from,
    ensures
        forall|n: Seq<u8>| #[trigger]
            t.compression.contains_key(n) ==> t.registered_from(c, from).compression.contains_key(
                n,
            ) && t.registered_from(c, from).compression[n] == t.compression[n],
        forall|k: u16| #[trigger]
            t.registered_from(c, from).decompression.contains_key(k)
                ==> t.decompression.contains_key(k) || t.pos + from <= k < t.pos + c.len(),
    decreases c.len() - from,
{
    let r = t.registered_from(c, from);
    if from < c.len() {
        let end = label_end(c, from);
        let next = t.with_entry(t.pos + from, c.skip(from));
        lemma_label_end_bounds(c, from);
        if end < c.len() {
            lemma_registered_from_keeps(next, c, end + 1);
        }
        assert forall|n: Seq<u8>| #[trigger] t.compression.contains_key(n) implies
            r.compression.contains_key(n) && r.compression[n] == t.compression[n] by {
            assert(next.compression.contains_key(n));
        }
        assert forall|k: u16| #[trigger] r.decompression.contains_key(k) implies
            t.decompression.contains_key(k) || t.pos + from <= k < t.pos + c.len() by {
            if next.decompression.contains_key(k) {
                if !t.decompression.contains_key(k) {
                    assert(next.decompression == t.decompression.insert(
                        (t.pos + from) as u16,
                        c.skip(from),
                    ));
                }
            } else {
                assert(next.registered_from(c, end + 1).decompression.contains_key(k));
            }
        }
    }
}

/// Writing a name changes no entry that the table holds.
pub proof fn lemma_known_name_stays(n: Seq<u8>, name: Seq<u8>, t: TableView)
    requires
        t.compression.contains_key(n),
    ensures
        table_after_write(name, t).compression.contains_key(n),
        table_after_write(name, t).compression[n] == t.compression[n],
{
    lemma_registered_from_keeps(t, canonical(name, 0), 0);
}

/// Writing a name keeps every registered offset before the position.
pub proof fn lemma_write_offsets_behind(name: Seq<u8>, t: TableView)
    requires
        offsets_behind(t),
    ensures
        offsets_behind(table_after_write(name, t)),
{
    lemma_registered_from_keeps(t, canonical(name, 0), 0);
    lemma_registered_pos(t, canonical(name, 0), 0);
    lemma_wire_length(name, 0);
    let r = table_after_write(name, t);
    if !t.compression.contains_key(name) {
        assert forall|k: u16| #[trigger] r.decompression.contains_key(k) implies k < r.pos by {
            if !t.decompression.contains_key(k) {
                lemma_registered_from_limit(t, canonical(name, 0), 0);
            }
        }
    }
}

/// Registering a name leaves the position where it is.
pub proof fn lemma_registered_pos(t: TableView, c: Seq<u8>, from: int)
    ensures
        t.registered_from(c, from).pos == t.pos,
    decreases c.len() - from,
{
    if 0 <= from < c.len() {
        let end = label_end(c, from);
        if from <= end < c.len() {
            lemma_registered_pos(t.with_entry(t.pos + from, c.skip(from)), c, end + 1);
        }
    }
}

/// Registering a name enters no offset at or above the limit of pointers.
proof fn lemma_registered_from_limit(t: TableView, c: Seq<u8>, from: int)
    ensures
        forall|k: u16| #[trigger]
            t.registered_from(c, from).decompression.contains_key(k)
                ==> t.decompression.contains_key(k) || k < POINTER_LIMIT,
    decreases c.len() - from,
{
    let r = t.registered_from(c, from);
    if 0 <= from < c.len() {
        let end = label_end(c, from);
        let next = t.with_entry(t.pos + from, c.skip(from));
        if from <= end < c.len() {
            lemma_registered_from_limit(next, c, end + 1);
        }
        assert forall|k: u16| #[trigger] r.decompression.contains_key(k) implies
            t.decompression.contains_key(k) || k < POINTER_LIMIT by {
            if next.decompression.contains_key(k) {
                if !t.decompression.contains_key(k) {
                    assert(next.decompression == t.decompression.insert(
                        (t.pos + from) as u16,
                        c.skip(from),
                    ));
                }
            } else {
                assert(next.registered_from(c, end + 1).decompression.contains_key(k));
            }
        }
    }
}

/// Registering a well-formed name from the label at `from` on enters the
/// suffix that starts at the label at `target`, at the offset where it
/// starts, unless the table knew the suffix.
proof fn lemma_registered_from_known(t: TableView, c: Seq<u8>, from: int, target: int)
    requires
        well_formed_from(c, from),
        0 <= from <= target,
        label_start(c, target),
        t.pos + target < POINTER_LIMIT,
        forall|k: u16| #[trigger] t.decompression.contains_key(k) ==> k < t.pos + from,
    ensures
        t.registered_from(c, from).compression.contains_key(c.skip(target)),
        t.registered_from(c, from).compression[c.skip(target)] == if t.compression.contains_key(
            c.skip(target),
        ) {
            t.compression[c.skip(target)] as int
        } else {
            t.pos + target
        },
    decreases c.len() - from,
{
    lemma_label_end_bounds(c, from);
    let end = label_end(c, from);
    let next = t.with_entry(t.pos + from, c.skip(from));
    if target == from {
        assert(next.compression.contains_key(c.skip(from)));
        if end < c.len() {
            lemma_registered_from_keeps(next, c, end + 1);
        }
    } else {
        assert(c.skip(target).len() != c.skip(from).len());
        lemma_registered_from_known(next, c, end + 1, target);
    }
}

/// After a well-formed name was written in full, the table knows each of
/// its suffixes that starts at a label, the whole name among them, at the
/// offset where the suffix was first written: where the table knew it
/// before, that offset; else the offset of the name plus the index of the
/// suffix. So a later occurrence of the name, or of such a suffix, is
/// written as a pointer to that offset.
pub proof fn lemma_written_suffix_is_known(name: Seq<u8>, t: TableView, from: int)
    requires
        well_formed(name),
        label_start(name, from),
        offsets_behind(t),
        t.pos + from < POINTER_LIMIT,
        !t.compression.contains_key(name),
    ensures
        ({
            let after = table_after_write(name, t);
            let suffix = name.skip(from);
            &&& after.compression.contains_key(suffix)
            &&& after.compression[suffix] == if t.compression.contains_key(suffix) {
                t.compression[suffix] as int
            } else {
                t.pos + from
            }
            &&& name_wire(suffix, after) == u16_be(pointer_word(after.compression[suffix]))
        }),
{
    lemma_well_formed_canonical(name, 0);
    assert(name.skip(0) =~= name);
    lemma_registered_from_known(t, name, 0, from);
}

/// The offset `n` octets behind `pos`, held at 65535 where it is larger:
/// what the position of a table becomes when `n` octets go by.
pub open spec fn offset_after(pos: u16, n: int) -> u16 {
    if pos + n > 0xFFFF {
        0xFFFFu16
    } else {
        (pos + n) as u16
    }
}

/// Whether `later` knows every suffix that `t` knows, at the same offset.
pub open spec fn extends(t: TableView, later: TableView) -> bool {
    forall|n: Seq<u8>| #[trigger]
        t.compression.contains_key(n) ==> later.compression.contains_key(n)
            && later.compression[n] == t.compression[n]
}

/// Writing a name moves the position on by the octets written, keeps every
/// registered offset before the position, and keeps what the table knew.
pub proof fn lemma_write_follows(name: Seq<u8>, t: TableView)
    requires
        offsets_behind(t),
    ensures
        table_after_write(name, t).pos == offset_after(t.pos, name_wire(name, t).len() as int),
        offsets_behind(table_after_write(name, t)),
        extends(t, table_after_write(name, t)),
{
    lemma_registered_pos(t, canonical(name, 0), 0);
    lemma_write_offsets_behind(name, t);
    lemma_registered_from_keeps(t, canonical(name, 0), 0);
}

} // verus!
