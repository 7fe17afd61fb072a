use vstd::prelude::*;
use vstd::bytes::lemma_auto_spec_u32_to_from_le_bytes;
use vstd::bytes::spec_u32_from_le_bytes;
use vstd::bytes::spec_u32_to_le_bytes;
use vstd::bytes::u32_from_le_bytes;
use vstd::bytes::u32_to_le_bytes;
use vstd::slice::slice_subrange;
use vstd::slice::slice_to_vec;
use crate::crypto::fill_random;
use crate::errors::Error;

verus! {

/// Length in bytes of a vault's initialization vector, which doubles as the
/// salt for password-based key derivation.
pub const IV_SIZE: usize = 16;

/// Length in bytes of the per-entry nonce stored beside each ciphertext.
/// Each entry carries its own nonce so that the vault IV is never reused as
/// an encryption nonce across entries.
pub const NONCE_SIZE: usize = 12;

/// Length in bytes of the per-entry authentication tag.
pub const TAG_SIZE: usize = 16;

/// The four magic bytes that open every vault file.
pub open spec fn spec_magic() -> Seq<u8> {
    seq![0x73u8, 0x76u8, 0x6cu8, 0x74u8]
}

/// Mathematical model of one stored secret entry: its name, the nonce and
/// authentication tag of its authenticated encryption, and the ciphertext.
#[verifier::ext_equal]
pub ghost struct EntryModel {
    pub name: Seq<u8>,
    pub nonce: Seq<u8>,
    pub tag: Seq<u8>,
    pub ciphertext: Seq<u8>,
}

/// Mathematical model of a vault: an optional IV and the entry list.
#[verifier::ext_equal]
pub ghost struct VaultModel {
    pub iv: Option<Seq<u8>>,
    pub entries: Seq<EntryModel>,
}

/// A well-formed entry: nonce and tag have their fixed sizes, and the
/// variable-length fields fit their 32-bit length prefixes.
pub open spec fn entry_wf(e: EntryModel) -> bool {
    &&& e.nonce.len() == NONCE_SIZE
    &&& e.tag.len() == TAG_SIZE
    &&& e.name.len() < 0x1_0000_0000
    &&& e.ciphertext.len() < 0x1_0000_0000
}

/// A well-formed vault model: the IV, if present, has exactly `IV_SIZE`
/// bytes; every entry is well formed; the entry count fits its 32-bit
/// prefix.
pub open spec fn model_wf(m: VaultModel) -> bool {
    &&& (m.iv matches Some(iv) ==> iv.len() == IV_SIZE)
    &&& m.entries.len() < 0x1_0000_0000
    &&& (forall|i: int| 0 <= i < m.entries.len() ==> entry_wf(#[trigger] m.entries[i]))
}

/// On-disk layout of one entry: 32-bit little-endian name length, name,
/// nonce, tag, 32-bit little-endian ciphertext length, ciphertext.
pub open spec fn spec_serialize_entry(e: EntryModel) -> Seq<u8> {
    spec_u32_to_le_bytes(e.name.len() as u32) + e.name + e.nonce + e.tag
        + spec_u32_to_le_bytes(e.ciphertext.len() as u32) + e.ciphertext
}

/// On-disk layout of an entry list: each entry's layout, in order.
pub open spec fn spec_serialize_entries(es: Seq<EntryModel>) -> Seq<u8>
    decreases es.len(),
{
    if es.len() == 0 {
        Seq::empty()
    } else {
        spec_serialize_entry(es[0]) + spec_serialize_entries(es.skip(1))
    }
}

/// On-disk layout of a whole vault: magic, IV, 32-bit little-endian entry
/// count, then the entries. Only a vault whose IV is present can be laid
/// out, so every saved vault stores its IV.
pub open spec fn spec_serialize(m: VaultModel) -> Seq<u8>
    recommends
        m.iv is Some,
{
    spec_magic() + m.iv.unwrap() + spec_u32_to_le_bytes(m.entries.len() as u32)
        + spec_serialize_entries(m.entries)
}

/// What parsing one entry at byte offset `pos` yields: the entry and the
/// offset just past it, or nothing if the bytes there are not a well-formed
/// entry.
pub open spec fn spec_parse_entry(data: Seq<u8>, pos: int) -> Option<(EntryModel, int)> {
    if pos + 4 > data.len() {
        None
    } else {
        let name_len = spec_u32_from_le_bytes(data.subrange(pos, pos + 4)) as int;
        let p1 = pos + 4;
        if p1 + name_len + NONCE_SIZE + TAG_SIZE + 4 > data.len() {
            None
        } else {
            let p2 = p1 + name_len;
            let p3 = p2 + NONCE_SIZE;
            let p4 = p3 + TAG_SIZE;
            let ct_len = spec_u32_from_le_bytes(data.subrange(p4, p4 + 4)) as int;
            let p5 = p4 + 4;
            if p5 + ct_len > data.len() {
                None
            } else {
                Some((
                    EntryModel {
                        name: data.subrange(p1, p2),
                        nonce: data.subrange(p2, p3),
                        tag: data.subrange(p3, p4),
                        ciphertext: data.subrange(p5, p5 + ct_len),
                    },
                    p5 + ct_len,
                ))
            }
        }
    }
}

/// What parsing `count` consecutive entries at `pos` yields: the entries
/// and the offset just past the last one, or nothing if any entry is
/// malformed.
pub open spec fn spec_parse_entries(data: Seq<u8>, pos: int, count: int) -> Option<
    (Seq<EntryModel>, int),
>
    decreases count,
{
    if count <= 0 {
        Some((Seq::empty(), pos))
    } else {
        match spec_parse_entry(data, pos) {
            None => None,
            Some((e, p)) => match spec_parse_entries(data, p, count - 1) {
                None => None,
                Some((es, end)) => Some((seq![e] + es, end)),
            },
        }
    }
}

/// What parsing a whole vault file yields: the vault model, or nothing if
/// the bytes are not exactly one well-formed vault (wrong magic, truncated
/// field, or trailing bytes).
pub open spec fn spec_parse(data: Seq<u8>) -> Option<VaultModel> {
    if data.len() < 4 + IV_SIZE + 4 {
        None
    } else if data.subrange(0, 4) != spec_magic() {
        None
    } else {
        let iv = data.subrange(4, 4 + IV_SIZE);
        let count = spec_u32_from_le_bytes(
            data.subrange(4 + IV_SIZE, 4 + IV_SIZE + 4),
        ) as int;
        match spec_parse_entries(data, 4 + IV_SIZE + 4, count) {
            None => None,
            Some((es, end)) => if end == data.len() {
                Some(VaultModel { iv: Some(iv), entries: es })
            } else {
                None
            },
        }
    }
}

/// One stored secret entry as held in memory.
pub struct VaultEntry {
    pub name: Vec<u8>,
    pub nonce: Vec<u8>,
    pub tag: Vec<u8>,
    pub ciphertext: Vec<u8>,
}

impl View for VaultEntry {
    type V = EntryModel;

    open spec fn view(&self) -> EntryModel {
        EntryModel {
            name: self.name@,
            nonce: self.nonce@,
            tag: self.tag@,
            ciphertext: self.ciphertext@,
        }
    }
}

/// The model of an optional IV buffer.
pub open spec fn iv_view(iv: Option<Vec<u8>>) -> Option<Seq<u8>> {
    match iv {
        Some(v) => Some(v@),
        None => None,
    }
}

/// The models of a list of in-memory entries.
pub open spec fn entries_view(es: Seq<VaultEntry>) -> Seq<EntryModel> {
    es.map_values(|e: VaultEntry| e@)
}

/// The persisted container: an optional IV (present from creation on, and
/// immutable for the vault's lifetime) and the encrypted secret entries.
pub struct Vault {
    pub iv: Option<Vec<u8>>,
    pub entries: Vec<VaultEntry>,
}

impl View for Vault {
    type V = VaultModel;

    open spec fn view(&self) -> VaultModel {
        VaultModel { iv: iv_view(self.iv), entries: entries_view(self.entries@) }
    }
}

impl Vault {
    /// A well-formed vault, as `model_wf` says of its model.
    pub open spec fn wf(&self) -> bool {
        model_wf(self@)
    }

    /// Creates a fresh empty vault with a newly generated random IV. The IV
    /// is generated exactly once, here; it never changes afterwards.
    pub fn new() -> (v: Vault)
        ensures
            v.wf(),
            v@.iv is Some,
            v@.iv.unwrap().len() == IV_SIZE,
            v@.entries.len() == 0,
    {
        let iv = fill_random(IV_SIZE);
        let v = Vault { iv: Some(iv), entries: Vec::new() };
        proof {
            assert(v@.entries =~= Seq::<EntryModel>::empty());
        }
        v
    }

    /// Appends one encrypted entry. The higher-level secret API builds
    /// entries; the vault only stores and persists them.
    pub fn push_entry(&mut self, e: VaultEntry)
        requires
            old(self).wf(),
            entry_wf(e@),
            old(self)@.entries.len() + 1 < 0x1_0000_0000,
        ensures
            final(self).wf(),
            final(self)@.iv == old(self)@.iv,
            final(self)@.entries == old(self)@.entries.push(e@),
    {
        let ghost old_entries = self.entries@;
        self.entries.push(e);
        proof {
            assert(entries_view(self.entries@) =~= entries_view(old_entries).push(e@));
        }
    }

    /// Serializes the vault into its on-disk byte layout.
    pub fn to_bytes(&self) -> (r: Vec<u8>)
        requires
            self.wf(),
            self@.iv is Some,
        ensures
            r@ == spec_serialize(self@),
    {
        let mut out: Vec<u8> = Vec::new();
        out.push(0x73);
        out.push(0x76);
        out.push(0x6c);
        out.push(0x74);
        proof {
            assert(out@ =~= spec_magic());
        }
        let iv = self.iv.as_ref().unwrap();
        push_all(&mut out, iv);
        let count_bytes = u32_to_le_bytes(self.entries.len() as u32);
        push_all(&mut out, &count_bytes);
        let ghost header = spec_magic() + self@.iv.unwrap()
            + spec_u32_to_le_bytes(self@.entries.len() as u32);
        proof {
            assert(out@ =~= header);
        }
        let mut i: usize = 0;
        while i < self.entries.len()
            invariant
                self.wf(),
                i <= self.entries.len(),
                header == spec_magic() + self@.iv.unwrap()
                    + spec_u32_to_le_bytes(self@.entries.len() as u32),
                out@ == header + spec_serialize_entries(self@.entries.take(i as int)),
            decreases self.entries.len() - i,
        {
            let ghost done = self@.entries.take(i as int);
            proof {
                assert(self@.entries[i as int] == self.entries@[i as int]@);
            }
            serialize_entry_into(&mut out, &self.entries[i]);
            proof {
                assert(self@.entries.take(i + 1) =~= done.push(self@.entries[i as int]));
                lemma_serialize_entries_push(done, self@.entries[i as int]);
                assert(out@ =~= header + spec_serialize_entries(self@.entries.take(i + 1)));
            }
            i = i + 1;
        }
        proof {
            assert(self@.entries.take(self.entries.len() as int) =~= self@.entries);
            assert(out@ =~= spec_serialize(self@));
        }
        out
    }

    /// Parses the on-disk byte layout back into a vault. Succeeds exactly
    /// when the bytes are one well-formed vault; anything else fails with
    /// `VaultFormatError`.
    pub fn from_bytes(data: &Vec<u8>) -> (r: Result<Vault, Error>)
        ensures
            match r {
                Ok(v) => v.wf() && v@.iv is Some && spec_parse(data@) == Some(v@),
                Err(e) => e == Error::VaultFormatError && spec_parse(data@) is None,
            },
    {
        let n = data.len();
        if n < 4 + IV_SIZE + 4 {
            return Err(Error::VaultFormatError);
        }
        if !(data[0] == 0x73 && data[1] == 0x76 && data[2] == 0x6c && data[3] == 0x74) {
            proof {
                let s = data@.subrange(0, 4);
                assert(s[0] == data@[0] && s[1] == data@[1] && s[2] == data@[2] && s[3]
                    == data@[3]);
                assert(spec_magic()[0] == 0x73 && spec_magic()[1] == 0x76 && spec_magic()[2]
                    == 0x6c && spec_magic()[3] == 0x74);
            }
            return Err(Error::VaultFormatError);
        }
        proof {
            assert(data@.subrange(0, 4) =~= spec_magic());
        }
        let iv = read_vec(data, 4, IV_SIZE);
        let count = read_u32(data, 4 + IV_SIZE) as usize;
        let ghost start: int = 4 + IV_SIZE + 4;
        let mut pos: usize = 4 + IV_SIZE + 4;
        let mut entries: Vec<VaultEntry> = Vec::new();
        let mut i: usize = 0;
        proof {
            assert(entries_view(entries@) =~= Seq::<EntryModel>::empty());
        }
        while i < count
            invariant
                i <= count,
                pos <= n,
                n == data@.len(),
                n >= 4 + IV_SIZE + 4,
                start == 4 + IV_SIZE + 4,
                data@.subrange(0, 4) == spec_magic(),
                count == spec_u32_from_le_bytes(
                    data@.subrange(4 + IV_SIZE as int, 4 + IV_SIZE + 4),
                ) as usize,
                entries@.len() == i,
                forall|j: int| 0 <= j < entries@.len() ==> entry_wf(#[trigger] entries@[j]@),
                match spec_parse_entries(data@, pos as int, (count - i) as int) {
                    None => spec_parse_entries(data@, start, count as int) is None,
                    Some(tail) => spec_parse_entries(data@, start, count as int) == Some(
                        (entries_view(entries@) + tail.0, tail.1),
                    ),
                },
            decreases count - i,
        {
            let ghost old_pos: int = pos as int;
            let ghost remaining: int = (count - i) as int;
            match parse_entry(data, pos) {
                Err(_) => {
                    proof {
                        assert(spec_parse_entries(data@, old_pos, remaining) is None);
                        assert(spec_parse_entries(data@, start, count as int) is None);
                        assert(spec_parse(data@) is None);
                    }
                    return Err(Error::VaultFormatError);
                },
                Ok((e, end)) => {
                    let ghost old_models = entries_view(entries@);
                    let ghost tail_after = spec_parse_entries(data@, end as int, remaining - 1);
                    entries.push(e);
                    pos = end;
                    i = i + 1;
                    proof {
                        assert(entries_view(entries@) =~= old_models.push(e@));
                        match tail_after {
                            None => {
                                assert(spec_parse_entries(data@, old_pos, remaining) is None);
                            },
                            Some(t) => {
                                assert(spec_parse_entries(data@, old_pos, remaining) == Some(
                                    (seq![e@] + t.0, t.1),
                                ));
                                assert(old_models.push(e@) + t.0 =~= old_models + (seq![e@]
                                    + t.0));
                            },
                        }
                    }
                },
            }
        }
        proof {
            assert(spec_parse_entries(data@, pos as int, 0) == Some(
                (Seq::<EntryModel>::empty(), pos as int),
            ));
            assert(entries_view(entries@) + Seq::<EntryModel>::empty() =~= entries_view(
                entries@,
            ));
            assert(spec_parse_entries(data@, start, count as int) == Some(
                (entries_view(entries@), pos as int),
            ));
        }
        if pos != n {
            proof {
                assert(spec_parse(data@) is None);
            }
            return Err(Error::VaultFormatError);
        }
        let v = Vault { iv: Some(iv), entries };
        proof {
            assert(spec_parse(data@) matches Some(m) && m =~= v@);
        }
        Ok(v)
    }
}

/// Reads the 32-bit little-endian integer at byte offset `pos`.
fn read_u32(data: &Vec<u8>, pos: usize) -> (r: u32)
    requires
        pos + 4 <= data@.len(),
    ensures
        r == spec_u32_from_le_bytes(data@.subrange(pos as int, pos as int + 4)),
{
    // The length binding lets the prover see that `pos + 4` fits in usize.
    let n = data.len();
    proof {
        assert(pos + 4 <= n);
    }
    let s = slice_subrange(data.as_slice(), pos, pos + 4);
    u32_from_le_bytes(s)
}

/// Copies `len` bytes starting at byte offset `pos`.
fn read_vec(data: &Vec<u8>, pos: usize, len: usize) -> (r: Vec<u8>)
    requires
        pos + len <= data@.len(),
    ensures
        r@ == data@.subrange(pos as int, pos as int + len as int),
{
    // The length binding lets the prover see that `pos + len` fits in usize.
    let n = data.len();
    proof {
        assert(pos + len <= n);
    }
    slice_to_vec(slice_subrange(data.as_slice(), pos, pos + len))
}

/// Parses one entry at byte offset `pos`, as `spec_parse_entry` says.
fn parse_entry(data: &Vec<u8>, pos: usize) -> (r: Result<(VaultEntry, usize), Error>)
    requires
        pos <= data@.len(),
    ensures
        match r {
            Ok((e, end)) => entry_wf(e@) && pos < end <= data@.len() && spec_parse_entry(
                data@,
                pos as int,
            ) == Some((e@, end as int)),
            Err(err) => err == Error::VaultFormatError && spec_parse_entry(
                data@,
                pos as int,
            ) is None,
        },
{
    let n = data.len();
    if n - pos < 4 {
        return Err(Error::VaultFormatError);
    }
    let name_len = read_u32(data, pos) as usize;
    let p1 = pos + 4;
    let rest = n - p1;
    if rest < name_len || rest - name_len < NONCE_SIZE + TAG_SIZE + 4 {
        return Err(Error::VaultFormatError);
    }
    let name = read_vec(data, p1, name_len);
    let p2 = p1 + name_len;
    let nonce = read_vec(data, p2, NONCE_SIZE);
    let p3 = p2 + NONCE_SIZE;
    let tag = read_vec(data, p3, TAG_SIZE);
    let p4 = p3 + TAG_SIZE;
    let ct_len = read_u32(data, p4) as usize;
    let p5 = p4 + 4;
    if n - p5 < ct_len {
        return Err(Error::VaultFormatError);
    }
    let ciphertext = read_vec(data, p5, ct_len);
    let end = p5 + ct_len;
    Ok((VaultEntry { name, nonce, tag, ciphertext }, end))
}

/// Appends all of `data` to `out`.
fn push_all(out: &mut Vec<u8>, data: &Vec<u8>)
    ensures
        final(out)@ == old(out)@ + data@,
{
    let mut i: usize = 0;
    while i < data.len()
        invariant
            i <= data.len(),
            out@ == old(out)@ + data@.take(i as int),
        decreases data.len() - i,
    {
        out.push(data[i]);
        proof {
            assert(old(out)@ + data@.take(i + 1) =~= (old(out)@ + data@.take(i as int)).push(
                data@[i as int],
            ));
        }
        i = i + 1;
    }
    proof {
        assert(old(out)@ + data@.take(data@.len() as int) =~= old(out)@ + data@);
    }
}

/// Appends the on-disk layout of one entry to `out`.
fn serialize_entry_into(out: &mut Vec<u8>, e: &VaultEntry)
    requires
        entry_wf(e@),
    ensures
        final(out)@ == old(out)@ + spec_serialize_entry(e@),
{
    let name_len_bytes = u32_to_le_bytes(e.name.len() as u32);
    push_all(out, &name_len_bytes);
    push_all(out, &e.name);
    push_all(out, &e.nonce);
    push_all(out, &e.tag);
    let ct_len_bytes = u32_to_le_bytes(e.ciphertext.len() as u32);
    push_all(out, &ct_len_bytes);
    push_all(out, &e.ciphertext);
    proof {
        assert(out@ =~= old(out)@ + spec_serialize_entry(e@));
    }
}

/// Parsing recovers a serialized entry: wherever the bytes of
/// `spec_serialize_entry(e)` stand in `data`, parsing there yields `e` and
/// stops just past them.
proof fn lemma_parse_serialized_entry(data: Seq<u8>, pos: int, e: EntryModel)
    requires
        entry_wf(e),
        0 <= pos,
        pos + spec_serialize_entry(e).len() <= data.len(),
        data.subrange(pos, pos + spec_serialize_entry(e).len()) == spec_serialize_entry(e),
    ensures
        spec_parse_entry(data, pos) == Some((e, pos + spec_serialize_entry(e).len())),
{
    lemma_auto_spec_u32_to_from_le_bytes();
    let s = spec_serialize_entry(e);
    let nl = e.name.len() as int;
    let cl = e.ciphertext.len() as int;
    let a = spec_u32_to_le_bytes(e.name.len() as u32);
    let f = spec_u32_to_le_bytes(e.ciphertext.len() as u32);
    let o2 = 4 + nl;
    let o3 = o2 + NONCE_SIZE;
    let o4 = o3 + TAG_SIZE;
    let o5 = o4 + 4;
    let len = o5 + cl;
    assert(s.len() == len);
    assert forall|k: int| 0 <= k < len implies data[pos + k] == s[k] by {
        assert(data.subrange(pos, pos + len)[k] == data[pos + k]);
    }
    let p1 = pos + 4;
    let p2 = p1 + nl;
    let p3 = p2 + NONCE_SIZE as int;
    let p4 = p3 + TAG_SIZE as int;
    let p5 = p4 + 4;
    assert forall|j: int| 0 <= j < 4 implies data.subrange(pos, pos + 4)[j] == a[j] by {
        assert(data[pos + j] == s[j]);
        assert(s[j] == a[j]);
    }
    assert(data.subrange(pos, pos + 4) =~= a);
    assert(spec_u32_from_le_bytes(data.subrange(pos, pos + 4)) as int == nl);
    assert forall|j: int| 0 <= j < nl implies data[p1 + j] == e.name[j] by {
        assert(data[pos + (4 + j)] == s[4 + j]);
        assert(s[4 + j] == e.name[j]);
        assert(p1 + j == pos + (4 + j));
    }
    assert(data.subrange(p1, p1 + nl) =~= e.name);
    assert forall|j: int| 0 <= j < NONCE_SIZE as int implies data[p2 + j] == e.nonce[j] by {
        assert(data[pos + (o2 + j)] == s[o2 + j]);
        assert(s[o2 + j] == e.nonce[j]);
        assert(p2 + j == pos + (o2 + j));
    }
    assert(data.subrange(p2, p2 + NONCE_SIZE as int) =~= e.nonce);
    assert forall|j: int| 0 <= j < TAG_SIZE as int implies data[p3 + j] == e.tag[j] by {
        assert(data[pos + (o3 + j)] == s[o3 + j]);
        assert(s[o3 + j] == e.tag[j]);
        assert(p3 + j == pos + (o3 + j));
    }
    assert(data.subrange(p3, p3 + TAG_SIZE as int) =~= e.tag);
    assert forall|j: int| 0 <= j < 4 implies data[p4 + j] == f[j] by {
        assert(data[pos + (o4 + j)] == s[o4 + j]);
        assert(s[o4 + j] == f[j]);
        assert(p4 + j == pos + (o4 + j));
    }
    assert(data.subrange(p4, p4 + 4) =~= f);
    assert(spec_u32_from_le_bytes(data.subrange(p4, p4 + 4)) as int == cl);
    assert forall|j: int| 0 <= j < cl implies data[p5 + j] == e.ciphertext[j] by {
        assert(data[pos + (o5 + j)] == s[o5 + j]);
        assert(s[o5 + j] == e.ciphertext[j]);
        assert(p5 + j == pos + (o5 + j));
    }
    assert(data.subrange(p5, p5 + cl) =~= e.ciphertext);
    assert(spec_parse_entry(data, pos) matches Some(r) && r.0 =~= e && r.1 == pos + len);
}

/// Parsing recovers a serialized entry list: wherever the bytes of
/// `spec_serialize_entries(es)` stand in `data`, parsing `es.len()` entries
/// there yields `es` and stops just past them.
proof fn lemma_parse_serialized_entries(data: Seq<u8>, pos: int, es: Seq<EntryModel>)
    requires
        forall|i: int| 0 <= i < es.len() ==> entry_wf(#[trigger] es[i]),
        0 <= pos,
        pos + spec_serialize_entries(es).len() <= data.len(),
        data.subrange(pos, pos + spec_serialize_entries(es).len()) == spec_serialize_entries(es),
    ensures
        spec_parse_entries(data, pos, es.len() as int) == Some(
            (es, pos + spec_serialize_entries(es).len()),
        ),
    decreases es.len(),
{
    if es.len() == 0 {
        assert(es =~= Seq::<EntryModel>::empty());
    } else {
        let s = spec_serialize_entries(es);
        let s0 = spec_serialize_entry(es[0]);
        let rest = spec_serialize_entries(es.skip(1));
        assert(s == s0 + rest);
        assert forall|k: int| 0 <= k < s.len() implies data[pos + k] == s[k] by {
            assert(data.subrange(pos, pos + s.len())[k] == data[pos + k]);
        }
        assert forall|j: int| 0 <= j < s0.len() implies data.subrange(pos, pos + s0.len())[j]
            == s0[j] by {
            assert(data[pos + j] == s[j]);
            assert(s[j] == s0[j]);
        }
        assert(data.subrange(pos, pos + s0.len()) =~= s0);
        lemma_parse_serialized_entry(data, pos, es[0]);
        let p1 = pos + s0.len();
        assert forall|j: int| 0 <= j < rest.len() implies data[p1 + j] == rest[j] by {
            assert(data[pos + (s0.len() + j)] == s[s0.len() + j]);
            assert(s[s0.len() + j] == rest[j]);
            assert(p1 + j == pos + (s0.len() + j));
        }
        assert(data.subrange(p1, p1 + rest.len()) =~= rest);
        lemma_parse_serialized_entries(data, p1, es.skip(1));
        assert(seq![es[0]] + es.skip(1) =~= es);
    }
}

/// Round-trip law for vault persistence: parsing the serialized layout of
/// any well-formed vault that has an IV yields that vault back, entry for
/// entry and byte for byte.
pub proof fn lemma_serialize_parse_roundtrip(m: VaultModel)
    requires
        model_wf(m),
        m.iv is Some,
    ensures
        spec_parse(spec_serialize(m)) == Some(m),
{
    lemma_auto_spec_u32_to_from_le_bytes();
    let data = spec_serialize(m);
    let iv = m.iv.unwrap();
    let cb = spec_u32_to_le_bytes(m.entries.len() as u32);
    let eb = spec_serialize_entries(m.entries);
    assert(data == spec_magic() + iv + cb + eb);
    let start = 4 + IV_SIZE as int + 4;
    assert(data.len() == start + eb.len());
    assert(data.subrange(0, 4) =~= spec_magic());
    assert(data.subrange(4, 4 + IV_SIZE as int) =~= iv);
    assert(data.subrange(4 + IV_SIZE as int, 4 + IV_SIZE as int + 4) =~= cb);
    assert(spec_u32_from_le_bytes(cb) as int == m.entries.len());
    assert(data.subrange(start, start + eb.len()) =~= eb);
    lemma_parse_serialized_entries(data, start, m.entries);
    assert(spec_parse(data) matches Some(r) && r =~= m);
}

/// Soundness of entry parsing: a parsed entry re-serializes to exactly the
/// bytes it was parsed from.
proof fn lemma_entry_parse_sound(data: Seq<u8>, pos: int)
    requires
        0 <= pos <= data.len(),
        spec_parse_entry(data, pos) is Some,
    ensures
        ({
            let (e, end) = spec_parse_entry(data, pos).unwrap();
            &&& entry_wf(e)
            &&& pos < end <= data.len()
            &&& spec_serialize_entry(e) == data.subrange(pos, end)
        }),
{
    lemma_auto_spec_u32_to_from_le_bytes();
    let (e, end) = spec_parse_entry(data, pos).unwrap();
    let nl = spec_u32_from_le_bytes(data.subrange(pos, pos + 4)) as int;
    let p1 = pos + 4;
    let p2 = p1 + nl;
    let p3 = p2 + NONCE_SIZE as int;
    let p4 = p3 + TAG_SIZE as int;
    let cl = spec_u32_from_le_bytes(data.subrange(p4, p4 + 4)) as int;
    let p5 = p4 + 4;
    assert(e.name.len() == nl);
    assert(e.ciphertext.len() == cl);
    assert(spec_u32_to_le_bytes(e.name.len() as u32) == data.subrange(pos, pos + 4));
    assert(spec_u32_to_le_bytes(e.ciphertext.len() as u32) == data.subrange(p4, p4 + 4));
    let s = spec_serialize_entry(e);
    assert(s.len() == end - pos);
    assert forall|k: int| 0 <= k < s.len() implies s[k] == data.subrange(pos, end)[k] by {
        assert(data.subrange(pos, end)[k] == data[pos + k]);
        if k < 4 {
            assert(s[k] == data.subrange(pos, pos + 4)[k]);
            assert(data.subrange(pos, pos + 4)[k] == data[pos + k]);
        } else if k < 4 + nl {
            assert(s[k] == e.name[k - 4]);
            assert(e.name[k - 4] == data.subrange(p1, p2)[k - 4]);
            assert(data.subrange(p1, p2)[k - 4] == data[p1 + (k - 4)]);
        } else if k < 4 + nl + NONCE_SIZE as int {
            assert(s[k] == e.nonce[k - 4 - nl]);
            assert(e.nonce[k - 4 - nl] == data.subrange(p2, p3)[k - 4 - nl]);
            assert(data.subrange(p2, p3)[k - 4 - nl] == data[p2 + (k - 4 - nl)]);
        } else if k < 4 + nl + NONCE_SIZE as int + TAG_SIZE as int {
            let j = k - 4 - nl - NONCE_SIZE as int;
            assert(s[k] == e.tag[j]);
            assert(e.tag[j] == data.subrange(p3, p4)[j]);
            assert(data.subrange(p3, p4)[j] == data[p3 + j]);
        } else if k < 4 + nl + NONCE_SIZE as int + TAG_SIZE as int + 4 {
            let j = k - 4 - nl - NONCE_SIZE as int - TAG_SIZE as int;
            assert(s[k] == spec_u32_to_le_bytes(e.ciphertext.len() as u32)[j]);
            assert(data.subrange(p4, p4 + 4)[j] == data[p4 + j]);
        } else {
            let j = k - 4 - nl - NONCE_SIZE as int - TAG_SIZE as int - 4;
            assert(s[k] == e.ciphertext[j]);
            assert(e.ciphertext[j] == data.subrange(p5, p5 + cl)[j]);
            assert(data.subrange(p5, p5 + cl)[j] == data[p5 + j]);
        }
    }
    assert(s =~= data.subrange(pos, end));
}

/// Soundness of entry-list parsing: parsed entries re-serialize to exactly
/// the bytes they were parsed from.
proof fn lemma_entries_parse_sound(data: Seq<u8>, pos: int, count: int)
    requires
        0 <= pos <= data.len(),
        0 <= count,
        spec_parse_entries(data, pos, count) is Some,
    ensures
        ({
            let (es, end) = spec_parse_entries(data, pos, count).unwrap();
            &&& es.len() == count
            &&& pos <= end <= data.len()
            &&& (forall|i: int| 0 <= i < es.len() ==> entry_wf(#[trigger] es[i]))
            &&& spec_serialize_entries(es) == data.subrange(pos, end)
        }),
    decreases count,
{
    let (es, end) = spec_parse_entries(data, pos, count).unwrap();
    if count == 0 {
        assert(es =~= Seq::<EntryModel>::empty());
        assert(spec_serialize_entries(es) =~= data.subrange(pos, pos));
    } else {
        let (e, p) = spec_parse_entry(data, pos).unwrap();
        lemma_entry_parse_sound(data, pos);
        let (rest, rend) = spec_parse_entries(data, p, count - 1).unwrap();
        lemma_entries_parse_sound(data, p, count - 1);
        assert(es == seq![e] + rest);
        assert(es[0] == e);
        assert(es.skip(1) =~= rest);
        assert(spec_serialize_entries(es) == spec_serialize_entry(e) + spec_serialize_entries(
            rest,
        ));
        assert(data.subrange(pos, p) + data.subrange(p, rend) =~= data.subrange(pos, rend));
    }
}

/// The converse round-trip law: re-serializing a parsed vault yields the
/// very bytes it was parsed from. The on-disk layout is canonical, so
/// loading a vault and saving it back writes an identical file.
pub proof fn lemma_parse_serialize_identity(data: Seq<u8>)
    requires
        spec_parse(data) is Some,
    ensures
        model_wf(spec_parse(data).unwrap()),
        spec_parse(data).unwrap().iv is Some,
        spec_serialize(spec_parse(data).unwrap()) == data,
{
    lemma_auto_spec_u32_to_from_le_bytes();
    let m = spec_parse(data).unwrap();
    let start = 4 + IV_SIZE as int + 4;
    let cb = data.subrange(4 + IV_SIZE as int, 4 + IV_SIZE as int + 4);
    let count = spec_u32_from_le_bytes(cb) as int;
    lemma_entries_parse_sound(data, start, count);
    let (es, end) = spec_parse_entries(data, start, count).unwrap();
    assert(end == data.len());
    assert(m.entries == es);
    assert(spec_u32_to_le_bytes(m.entries.len() as u32) == cb);
    let s = spec_serialize(m);
    assert forall|k: int| 0 <= k < s.len() implies s[k] == data[k] by {
        if k < 4 {
            assert(s[k] == spec_magic()[k]);
            assert(data.subrange(0, 4)[k] == data[k]);
        } else if k < 4 + IV_SIZE as int {
            assert(s[k] == m.iv.unwrap()[k - 4]);
            assert(data.subrange(4, 4 + IV_SIZE as int)[k - 4] == data[k]);
        } else if k < start {
            let j = k - 4 - IV_SIZE as int;
            assert(s[k] == spec_u32_to_le_bytes(m.entries.len() as u32)[j]);
            assert(cb[j] == data[4 + IV_SIZE as int + j]);
        } else {
            let j = k - start;
            assert(s[k] == spec_serialize_entries(m.entries)[j]);
            assert(data.subrange(start, end)[j] == data[start + j]);
        }
    }
    assert(s =~= data);
}

/// Serializing one more entry extends the serialized entry list at its end.
proof fn lemma_serialize_entries_push(es: Seq<EntryModel>, e: EntryModel)
    ensures
        spec_serialize_entries(es.push(e)) == spec_serialize_entries(es) + spec_serialize_entry(e),
    decreases es.len(),
{
    if es.len() == 0 {
        assert(es.push(e).len() == 1);
        assert(es.push(e)[0] == e);
        assert(es.push(e).skip(1) =~= Seq::<EntryModel>::empty());
        assert(spec_serialize_entries(es.push(e)) == spec_serialize_entry(e)
            + spec_serialize_entries(es.push(e).skip(1)));
        assert(spec_serialize_entries(es.push(e).skip(1)) == Seq::<u8>::empty());
        assert(spec_serialize_entries(es) == Seq::<u8>::empty());
        assert(spec_serialize_entry(e) + Seq::<u8>::empty() =~= Seq::<u8>::empty()
            + spec_serialize_entry(e));
    } else {
        let l0 = spec_serialize_entry(es[0]);
        assert(es.push(e)[0] == es[0]);
        assert(es.push(e).skip(1) =~= es.skip(1).push(e));
        lemma_serialize_entries_push(es.skip(1), e);
        assert(spec_serialize_entries(es.push(e)) == l0 + spec_serialize_entries(
            es.skip(1).push(e),
        ));
        assert(spec_serialize_entries(es.push(e)) == l0 + (spec_serialize_entries(es.skip(1))
            + spec_serialize_entry(e)));
        assert(l0 + (spec_serialize_entries(es.skip(1)) + spec_serialize_entry(e)) =~= (l0
            + spec_serialize_entries(es.skip(1))) + spec_serialize_entry(e));
        assert(spec_serialize_entries(es) == l0 + spec_serialize_entries(es.skip(1)));
    }
}

} // verus!
