//! The texture filename fragment, the worked example of the format's
//! entry-count idiom: a declared count, then exactly that many
//! variable-length sub-records. Known files always declare one entry, but the
//! codec parses whatever count the record declares.
//!
//! Each entry's filename is stored obfuscated with the same XOR key as the
//! string pool; the decoded bytes are kept, and serializing re-applies the
//! key, so the round trip is byte-exact.

use crate::bytes::{
    i32_at, lemma_le_bytes, push_i32, push_u16, push_u32, read_i32, read_u16, read_u32, u16_at,
    u16_le, u32_at, u32_le,
};
use crate::error::ParseError;
use crate::refs::StringReference;
use crate::string_pool::{crypt, crypt_range, lemma_crypt_self_inverse};
use vstd::prelude::*;

verus! {

/// The 32-bit type identifier of this fragment kind.
pub const TEXTURE_IMAGES_ID: u32 = 0x03;

/// One filename entry: a two-byte length, then that many obfuscated filename
/// bytes. `file_name` holds the decoded bytes.
#[derive(Clone, Debug, PartialEq, Eq)]
pub struct TextureImagesFragmentEntry {
    /// The filename's length in bytes as declared in the file.
    pub name_length: u16,
    /// The decoded filename bytes.
    pub file_name: Vec<u8>,
}

/// The mathematical value of an entry.
#[verifier::ext_equal]
pub struct TextureImagesFragmentEntryView {
    pub name_length: u16,
    pub file_name: Seq<u8>,
}

impl View for TextureImagesFragmentEntry {
    type V = TextureImagesFragmentEntryView;

    open spec fn view(&self) -> TextureImagesFragmentEntryView {
        TextureImagesFragmentEntryView {
            name_length: self.name_length,
            file_name: self.file_name@,
        }
    }
}

impl TextureImagesFragmentEntryView {
    /// The declared length agrees with the stored filename.
    pub open spec fn wf(self) -> bool {
        self.file_name.len() == self.name_length
    }

    /// The bytes an entry serializes to: the length, then the re-obfuscated
    /// filename.
    pub open spec fn bytes_of(self) -> Seq<u8> {
        u16_le(self.name_length) + crypt(self.file_name)
    }

    /// Reading an entry at offset `pos` of `b`: a two-byte length `n`, then
    /// `n` filename bytes, decoded with the XOR key.
    pub open spec fn parse_at(b: Seq<u8>, pos: int) -> Option<
        (TextureImagesFragmentEntryView, int),
    > {
        if 0 <= pos && pos + 2 <= b.len() {
            let n = u16_at(b, pos) as int;
            if pos + 2 + n <= b.len() {
                Some(
                    (
                        TextureImagesFragmentEntryView {
                            name_length: u16_at(b, pos),
                            file_name: crypt(b.subrange(pos + 2, pos + 2 + n)),
                        },
                        pos + 2 + n,
                    ),
                )
            } else {
                None
            }
        } else {
            None
        }
    }
}

impl TextureImagesFragmentEntry {
    /// Parses the entry at offset `pos` of `body`; fails exactly when the
    /// length field or the declared filename bytes are truncated.
    pub fn parse(body: &Vec<u8>, pos: usize) -> (r: Result<
        (TextureImagesFragmentEntry, usize),
        ParseError,
    >)
        requires
            pos <= body@.len(),
        ensures
            match r {
                Ok((e, p)) => TextureImagesFragmentEntryView::parse_at(body@, pos as int) == Some(
                    (e@, p as int),
                ) && pos <= p <= body@.len() && e@.wf(),
                Err(e) => TextureImagesFragmentEntryView::parse_at(body@, pos as int) is None
                    && e is Truncated,
            },
    {
        let len = body.len();
        if len - pos < 2 {
            return Err(ParseError::Truncated { offset: pos, needed: 2, available: len - pos });
        }
        let name_length = read_u16(body, pos);
        let n = name_length as usize;
        if len - (pos + 2) < n {
            return Err(
                ParseError::Truncated { offset: pos + 2, needed: n, available: len - pos - 2 },
            );
        }
        let file_name = crypt_range(body, pos + 2, pos + 2 + n);
        Ok((TextureImagesFragmentEntry { name_length, file_name }, pos + 2 + n))
    }

    /// Serializes the entry: the declared length, then the filename bytes
    /// re-obfuscated with the XOR key.
    pub fn serialize(&self) -> (r: Vec<u8>)
        ensures
            r@ == self@.bytes_of(),
    {
        let mut out: Vec<u8> = Vec::new();
        push_u16(&mut out, self.name_length);
        let n = self.file_name.len();
        let mut enc = crypt_range(&self.file_name, 0, n);
        proof {
            assert(self.file_name@.subrange(0, self.file_name@.len() as int) =~= self.file_name@);
        }
        out.append(&mut enc);
        assert(out@ =~= self@.bytes_of());
        out
    }
}

/// Round trip of one entry found at `pos`: parsing the bytes a well-formed
/// entry serializes to yields the entry back.
pub proof fn lemma_entry_round_trip_at(e: TextureImagesFragmentEntryView, b: Seq<u8>, pos: int)
    requires
        e.wf(),
        0 <= pos,
        pos + e.bytes_of().len() <= b.len(),
        b.subrange(pos, pos + e.bytes_of().len()) == e.bytes_of(),
    ensures
        TextureImagesFragmentEntryView::parse_at(b, pos) == Some(
            (e, pos + e.bytes_of().len()),
        ),
{
    lemma_le_bytes();
    let n = e.name_length as int;
    let eb = e.bytes_of();
    assert(eb.len() == 2 + n);
    crate::bytes::lemma_subrange_eq_sub(b, pos, eb, 0, 2);
    assert(eb.subrange(0, 2) =~= u16_le(e.name_length));
    assert(u16_at(b, pos) == e.name_length);
    crate::bytes::lemma_subrange_eq_sub(b, pos, eb, 2, 2 + n);
    assert(eb.subrange(2, 2 + n) =~= crypt(e.file_name));
    assert(b.subrange(pos + 2, pos + 2 + n) == crypt(e.file_name));
    lemma_crypt_self_inverse(e.file_name);
    let parsed = TextureImagesFragmentEntryView {
        name_length: u16_at(b, pos),
        file_name: crypt(b.subrange(pos + 2, pos + 2 + n)),
    };
    assert(parsed =~= e);
}

/// Byte identity of one entry: a parsed entry is well formed and serializes
/// back to exactly the bytes that were consumed.
pub proof fn lemma_entry_parse_exact(b: Seq<u8>, pos: int)
    ensures
        match TextureImagesFragmentEntryView::parse_at(b, pos) {
            Some((e, p)) => e.wf() && 0 <= pos && pos + 2 <= p <= b.len() && e.bytes_of()
                == b.subrange(pos, p),
            None => true,
        },
{
    lemma_le_bytes();
    if TextureImagesFragmentEntryView::parse_at(b, pos) is Some {
        let n = u16_at(b, pos) as int;
        lemma_crypt_self_inverse(b.subrange(pos + 2, pos + 2 + n));
        assert(b.subrange(pos, pos + 2) + b.subrange(pos + 2, pos + 2 + n) =~= b.subrange(
            pos,
            pos + 2 + n,
        ));
    }
}

/// The bytes a sequence of entries serializes to, in order.
pub open spec fn entries_bytes(es: Seq<TextureImagesFragmentEntryView>) -> Seq<u8>
    decreases es.len(),
{
    if es.len() == 0 {
        Seq::empty()
    } else {
        es[0].bytes_of() + entries_bytes(es.drop_first())
    }
}

/// Appending one entry appends its bytes.
pub proof fn lemma_entries_bytes_push(
    es: Seq<TextureImagesFragmentEntryView>,
    e: TextureImagesFragmentEntryView,
)
    ensures
        entries_bytes(es.push(e)) == entries_bytes(es) + e.bytes_of(),
    decreases es.len(),
{
    if es.len() == 0 {
        assert(es.push(e)[0] == e);
        assert(es.push(e).drop_first() =~= Seq::<TextureImagesFragmentEntryView>::empty());
        assert(entries_bytes(Seq::<TextureImagesFragmentEntryView>::empty())
            == Seq::<u8>::empty());
        assert(entries_bytes(es.push(e)) == e.bytes_of() + Seq::<u8>::empty());
        assert(entries_bytes(es) == Seq::<u8>::empty());
        assert(e.bytes_of() + Seq::<u8>::empty() =~= Seq::<u8>::empty() + e.bytes_of());
    } else {
        lemma_entries_bytes_push(es.drop_first(), e);
        assert(es.push(e).drop_first() =~= es.drop_first().push(e));
        assert(es.push(e)[0] == es[0]);
        assert((es[0].bytes_of() + entries_bytes(es.drop_first())) + e.bytes_of() =~= es[0].bytes_of()
            + (entries_bytes(es.drop_first()) + e.bytes_of()));
    }
}

/// Reading `n` consecutive entries starting at offset `pos` of `b`.
pub open spec fn parse_entries_at(b: Seq<u8>, pos: int, n: nat) -> Option<
    (Seq<TextureImagesFragmentEntryView>, int),
>
    decreases n,
{
    if n == 0 {
        Some((Seq::empty(), pos))
    } else {
        match TextureImagesFragmentEntryView::parse_at(b, pos) {
            None => None,
            Some((e, p2)) => match parse_entries_at(b, p2, (n - 1) as nat) {
                None => None,
                Some((es, p3)) => Some((seq![e] + es, p3)),
            },
        }
    }
}

/// Byte identity of an entry run: `n` parsed entries are well formed and
/// serialize back to exactly the consumed range.
pub proof fn lemma_entries_parse_exact(b: Seq<u8>, pos: int, n: nat)
    requires
        0 <= pos <= b.len(),
    ensures
        match parse_entries_at(b, pos, n) {
            Some((es, p)) => es.len() == n && pos <= p <= b.len() && (forall|i: int|
                0 <= i < es.len() ==> (#[trigger] es[i]).wf()) && entries_bytes(es) == b.subrange(
                pos,
                p,
            ),
            None => true,
        },
    decreases n,
{
    if n == 0 {
        assert(b.subrange(pos, pos) =~= Seq::<u8>::empty());
        assert(entries_bytes(Seq::empty()) == Seq::<u8>::empty());
    } else {
        lemma_entry_parse_exact(b, pos);
        match TextureImagesFragmentEntryView::parse_at(b, pos) {
            None => (),
            Some((e, p2)) => {
                lemma_entries_parse_exact(b, p2, (n - 1) as nat);
                match parse_entries_at(b, p2, (n - 1) as nat) {
                    None => (),
                    Some((es, p3)) => {
                        let all = seq![e] + es;
                        assert(all[0] == e);
                        assert(all.drop_first() =~= es);
                        assert(entries_bytes(all) == e.bytes_of() + entries_bytes(es));
                        assert(b.subrange(pos, p2) + b.subrange(p2, p3) =~= b.subrange(pos, p3));
                    },
                }
            },
        }
    }
}

/// Round trip of an entry run: parsing the bytes that well-formed entries
/// serialize to yields them back, in order.
pub proof fn lemma_entries_round_trip(
    es: Seq<TextureImagesFragmentEntryView>,
    b: Seq<u8>,
    pos: int,
)
    requires
        forall|i: int| 0 <= i < es.len() ==> (#[trigger] es[i]).wf(),
        0 <= pos,
        pos + entries_bytes(es).len() <= b.len(),
        b.subrange(pos, pos + entries_bytes(es).len()) == entries_bytes(es),
    ensures
        parse_entries_at(b, pos, es.len()) == Some((es, pos + entries_bytes(es).len())),
    decreases es.len(),
{
    if es.len() == 0 {
        assert(parse_entries_at(b, pos, 0) == Some(
            (Seq::<TextureImagesFragmentEntryView>::empty(), pos),
        ));
        assert(es =~= Seq::<TextureImagesFragmentEntryView>::empty());
    } else {
        let e = es[0];
        let eb = e.bytes_of();
        let rest = es.drop_first();
        let all = entries_bytes(es);
        assert(all == eb + entries_bytes(rest));
        crate::bytes::lemma_subrange_eq_sub(b, pos, all, 0, eb.len() as int);
        assert(all.subrange(0, eb.len() as int) =~= eb);
        lemma_entry_round_trip_at(e, b, pos);
        let p2 = pos + eb.len() as int;
        crate::bytes::lemma_subrange_eq_sub(b, pos, all, eb.len() as int, all.len() as int);
        assert(all.subrange(eb.len() as int, all.len() as int) =~= entries_bytes(rest));
        lemma_entries_round_trip(rest, b, p2);
        assert(seq![e] + rest =~= es);
    }
}

/// A fragment referencing one or more texture filenames.
#[derive(Clone, Debug, PartialEq, Eq)]
pub struct TextureImagesFragment {
    /// The fragment's name in the string pool.
    pub name_reference: StringReference,
    /// The declared number of filename entries; observed files declare 1.
    pub size1: u32,
    /// The filename entries, exactly `size1` of them in a parsed fragment.
    pub entries: Vec<TextureImagesFragmentEntry>,
}

/// The mathematical value of a texture filename fragment.
#[verifier::ext_equal]
pub struct TextureImagesFragmentView {
    pub name_reference: StringReference,
    pub size1: u32,
    pub entries: Seq<TextureImagesFragmentEntryView>,
}

impl View for TextureImagesFragment {
    type V = TextureImagesFragmentView;

    open spec fn view(&self) -> TextureImagesFragmentView {
        TextureImagesFragmentView {
            name_reference: self.name_reference,
            size1: self.size1,
            entries: self.entries@.map_values(|e: TextureImagesFragmentEntry| e@),
        }
    }
}

impl TextureImagesFragmentView {
    /// The entry list length agrees with the declared count, and every entry
    /// is well formed.
    pub open spec fn wf(self) -> bool {
        &&& self.entries.len() == self.size1
        &&& forall|i: int| 0 <= i < self.entries.len() ==> (#[trigger] self.entries[i]).wf()
    }

    /// The body bytes this fragment serializes to.
    pub open spec fn bytes_of(self) -> Seq<u8> {
        self.name_reference.bytes_of() + u32_le(self.size1) + entries_bytes(self.entries)
    }

    /// Reading a body: a name reference, the entry count, then exactly that
    /// many entries.
    pub open spec fn parse_spec(b: Seq<u8>) -> Option<(TextureImagesFragmentView, int)> {
        if b.len() >= 8 {
            let name_reference = StringReference(i32_at(b, 0));
            let size1 = u32_at(b, 4);
            match parse_entries_at(b, 8, size1 as nat) {
                None => None,
                Some((es, p)) => Some(
                    (TextureImagesFragmentView { name_reference, size1, entries: es }, p),
                ),
            }
        } else {
            None
        }
    }
}

impl TextureImagesFragment {
    /// Parses a body slice, reading exactly the declared number of entries;
    /// fails exactly when the fixed fields or any declared entry are
    /// truncated.
    #[verifier::loop_isolation(false)]
    pub fn parse(body: &Vec<u8>) -> (r: Result<(TextureImagesFragment, usize), ParseError>)
        ensures
            match r {
                Ok((f, c)) => TextureImagesFragmentView::parse_spec(body@) == Some(
                    (f@, c as int),
                ) && c <= body@.len() && f@.wf(),
                Err(e) => TextureImagesFragmentView::parse_spec(body@) is None && e is Truncated,
            },
    {
        let n = body.len();
        if n < 8 {
            return Err(ParseError::Truncated { offset: 0, needed: 8, available: n });
        }
        let name_reference = StringReference(read_i32(body, 0));
        let size1 = read_u32(body, 4);
        let ghost to_view = |e: TextureImagesFragmentEntry| e@;
        let mut entries: Vec<TextureImagesFragmentEntry> = Vec::new();
        let mut pos: usize = 8;
        let mut i: u32 = 0;
        while i < size1
            invariant
                i <= size1,
                8 <= pos <= body@.len(),
                entries@.len() == i,
                forall|k: int| 0 <= k < entries@.len() ==> (#[trigger] entries@[k]@).wf(),
                match parse_entries_at(body@, pos as int, (size1 - i) as nat) {
                    Some((es, p)) => parse_entries_at(body@, 8, size1 as nat) == Some(
                        (entries@.map_values(to_view) + es, p),
                    ),
                    None => parse_entries_at(body@, 8, size1 as nat) is None,
                },
            decreases size1 - i,
        {
            let res = TextureImagesFragmentEntry::parse(body, pos);
            match res {
                Err(e) => {
                    proof {
                        let m = (size1 - i) as nat;
                        assert(m > 0);
                        assert(parse_entries_at(body@, pos as int, m) is None);
                        assert(parse_entries_at(body@, 8, size1 as nat) is None);
                        assert(u32_at(body@, 4) == size1);
                        assert(body@.len() >= 8);
                        assert(parse_entries_at(body@, 8, u32_at(body@, 4) as nat) is None);
                        assert(TextureImagesFragmentView::parse_spec(body@) is None);
                    }
                    return Err(e);
                },
                Ok((e, p2)) => {
                    proof {
                        let m = (size1 - i) as nat;
                        let old_map = entries@.map_values(to_view);
                        match parse_entries_at(body@, p2 as int, (m - 1) as nat) {
                            Some((es2, p3)) => {
                                assert(parse_entries_at(body@, pos as int, m) == Some(
                                    (seq![e@] + es2, p3),
                                ));
                                assert((old_map + (seq![e@] + es2)) =~= ((old_map + seq![e@])
                                    + es2));
                                entries@.lemma_push_map_commute(to_view, e);
                                assert(to_view(e) == e@);
                                assert(old_map.push(e@) =~= old_map + seq![e@]);
                                assert(entries@.push(e).map_values(to_view) =~= old_map
                                    + seq![e@]);
                            },
                            None => {
                                assert(parse_entries_at(body@, pos as int, m) is None);
                            },
                        }
                    }
                    entries.push(e);
                    pos = p2;
                    i = i + 1;
                },
            }
        }
        proof {
            assert(parse_entries_at(body@, pos as int, 0) == Some(
                (Seq::<TextureImagesFragmentEntryView>::empty(), pos as int),
            ));
            assert(entries@.map_values(to_view) + Seq::<
                TextureImagesFragmentEntryView,
            >::empty() =~= entries@.map_values(to_view));
        }
        Ok((TextureImagesFragment { name_reference, size1, entries }, pos))
    }

    /// Serializes the body bytes: name reference, declared count, then every
    /// entry in order.
    #[verifier::loop_isolation(false)]
    pub fn serialize(&self) -> (r: Vec<u8>)
        ensures
            r@ == self@.bytes_of(),
    {
        let ghost to_view = |e: TextureImagesFragmentEntry| e@;
        let ghost evs = self.entries@.map_values(to_view);
        let mut out: Vec<u8> = Vec::new();
        push_i32(&mut out, self.name_reference.0);
        push_u32(&mut out, self.size1);
        let ghost prefix = out@;
        proof {
            lemma_le_bytes();
            assert(entries_bytes(evs.take(0)) == Seq::<u8>::empty()) by {
                assert(evs.take(0) =~= Seq::<TextureImagesFragmentEntryView>::empty());
            }
            assert(out@ =~= prefix + Seq::<u8>::empty());
        }
        let mut i: usize = 0;
        while i < self.entries.len()
            invariant
                i <= self.entries@.len(),
                evs == self.entries@.map_values(to_view),
                prefix.len() == 8,
                out@ == prefix + entries_bytes(evs.take(i as int)),
            decreases self.entries@.len() - i,
        {
            let entry = &self.entries[i];
            let mut eb = entry.serialize();
            out.append(&mut eb);
            proof {
                assert(evs[i as int] == self.entries@[i as int]@);
                lemma_entries_bytes_push(evs.take(i as int), evs[i as int]);
                assert(evs.take(i as int).push(evs[i as int]) =~= evs.take(i as int + 1));
                assert((prefix + entries_bytes(evs.take(i as int))) + evs[i as int].bytes_of()
                    =~= prefix + (entries_bytes(evs.take(i as int)) + evs[i as int].bytes_of()));
            }
            i = i + 1;
        }
        proof {
            assert(evs.take(self.entries@.len() as int) =~= evs);
            assert(out@ =~= self@.bytes_of());
        }
        out
    }
}

/// Round trip: parsing a serialized well-formed fragment (with any bytes
/// after it) yields the fragment back, consuming exactly its own bytes; in
/// particular the declared count re-reads the same number of entries.
pub proof fn lemma_texture_images_round_trip(v: TextureImagesFragmentView, tail: Seq<u8>)
    requires
        v.wf(),
    ensures
        TextureImagesFragmentView::parse_spec(v.bytes_of() + tail) == Some(
            (v, v.bytes_of().len() as int),
        ),
{
    lemma_le_bytes();
    let b = v.bytes_of() + tail;
    assert(b.subrange(0, 4) =~= v.name_reference.bytes_of());
    assert(b.subrange(4, 8) =~= u32_le(v.size1));
    let eb = entries_bytes(v.entries);
    assert(b.subrange(8, 8 + eb.len() as int) =~= eb);
    lemma_entries_round_trip(v.entries, b, 8);
}

/// Entry-count idiom: a parsed fragment holds exactly as many entries as the
/// count its body declares, whatever that count is.
pub proof fn lemma_entry_count(b: Seq<u8>)
    ensures
        match TextureImagesFragmentView::parse_spec(b) {
            Some((f, c)) => f.entries.len() == f.size1,
            None => true,
        },
{
    if TextureImagesFragmentView::parse_spec(b) is Some {
        lemma_entries_parse_exact(b, 8, u32_at(b, 4) as nat);
    }
}

/// Byte identity: a parsed fragment is well formed and serializes back to
/// exactly the bytes that were consumed.
pub proof fn lemma_texture_images_parse_exact(b: Seq<u8>)
    ensures
        match TextureImagesFragmentView::parse_spec(b) {
            Some((f, c)) => f.wf() && 0 <= c <= b.len() && f.bytes_of() == b.subrange(0, c),
            None => true,
        },
{
    lemma_le_bytes();
    if TextureImagesFragmentView::parse_spec(b) is Some {
        let size1 = u32_at(b, 4);
        lemma_entries_parse_exact(b, 8, size1 as nat);
        match parse_entries_at(b, 8, size1 as nat) {
            Some((es, p)) => {
                assert(b.subrange(0, 4) + b.subrange(4, 8) + b.subrange(8, p) =~= b.subrange(0, p));
            },
            None => (),
        }
    }
}

} // verus!
