//! # Amaudit format
//!
//! Immutable audit trail with a hash chain (tamper-evident). Each entry holds the
//! SHA-256 hash of the previous entry, so that a change to any recorded entry breaks
//! the chain.

use crate::digest::{sha256, sha256_digest};
use crate::json::{compact_json, json_accepts, json_compact_text};
use crate::text::{
    append_text, chars_of, decimal, hex_digit, hex_lower, hex_string, lemma_decimal_digits,
    lemma_decimal_injective, push_decimal, string_of,
};
use crate::time::{rfc3339_text, Timestamp};
use crate::{AmandaError, AmandaMetadata};
use vstd::prelude::*;
use vstd::utf8::encode_utf8;

verus! {

/// Entry in an audit trail.
#[derive(Debug, Clone, PartialEq)]
pub struct AuditEntry {
    /// Sequence number in the chain.
    pub sequence: u64,
    /// Time at which the entry was made.
    pub timestamp: Timestamp,
    /// Entry type/category.
    pub entry_type: String,
    /// Source component/tool.
    pub source: String,
    /// The payload, as compact JSON text.
    pub data: String,
    /// Hash of the previous entry (empty for the first entry).
    pub prev_hash: String,
    /// Hash of this entry, computed from all the other fields.
    pub hash: String,
}

/// How a character of a text field enters the hash input: `\` and `:` are written as
/// `\\` and `\c`, so that no field holds a bare `:`; every other character as it is.
pub open spec fn escaped_char(c: char) -> Seq<char> {
    if c == '\\' {
        seq!['\\', '\\']
    } else if c == ':' {
        seq!['\\', 'c']
    } else {
        seq![c]
    }
}

/// A text field as it enters the hash input, each character escaped.
pub open spec fn escaped(s: Seq<char>) -> Seq<char>
    decreases s.len(),
{
    if s.len() == 0 {
        Seq::empty()
    } else {
        escaped_char(s[0]) + escaped(s.drop_first())
    }
}

/// The text that is hashed for an entry: its fields except the hash, in order, joined by
/// `:`: the sequence number in decimal, the time in RFC 3339, then the type, source, data
/// and previous hash, each escaped.
pub open spec fn hash_input(e: AuditEntry) -> Seq<char> {
    decimal(e.sequence as nat) + seq![':'] + rfc3339_text(e.timestamp@.0, e.timestamp@.1) + seq![':']
        + escaped(e.entry_type@) + seq![':'] + escaped(e.source@) + seq![':'] + escaped(e.data@)
        + seq![':'] + escaped(e.prev_hash@)
}

/// The hash an entry must carry: the lowercase hex text of the SHA-256 digest of the
/// UTF-8 bytes of its hash input.
pub open spec fn entry_digest(e: AuditEntry) -> Seq<char> {
    hex_lower(sha256_digest(encode_utf8(hash_input(e))))
}

/// The entry carries the hash of its own contents.
pub open spec fn entry_sealed(e: AuditEntry) -> bool {
    e.hash@ == entry_digest(e)
}

/// Entry `i` is sealed and names its predecessor's hash (the first entry names none: its
/// previous hash is empty).
pub open spec fn entry_in_chain(entries: Seq<AuditEntry>, i: int) -> bool {
    &&& entry_sealed(entries[i])
    &&& entries[i].prev_hash@ == (if i == 0 { Seq::<char>::empty() } else { entries[i - 1].hash@ })
}

/// Every entry is sealed and linked to its predecessor.
pub open spec fn chain_valid(entries: Seq<AuditEntry>) -> bool {
    forall|i: int| 0 <= i < entries.len() ==> #[trigger] entry_in_chain(entries, i)
}

/// Every entry's sequence number is its position in the trail.
pub open spec fn sequenced(entries: Seq<AuditEntry>) -> bool {
    forall|i: int| 0 <= i < entries.len() ==> #[trigger] entries[i].sequence == i
}

/// The hash that the next entry must name: the last entry's hash, or empty text.
pub open spec fn chain_tip(entries: Seq<AuditEntry>) -> Seq<char> {
    if entries.len() == 0 {
        Seq::empty()
    } else {
        entries.last().hash@
    }
}

/// Appending one more character escapes it after the others.
proof fn lemma_escaped_push(s: Seq<char>, c: char)
    ensures
        escaped(s.push(c)) == escaped(s) + escaped_char(c),
    decreases s.len(),
{
    let sc = s.push(c);
    assert(sc[0] == if s.len() == 0 { c } else { s[0] });
    if s.len() == 0 {
        assert(sc.drop_first() =~= Seq::<char>::empty());
        assert(escaped(sc.drop_first()) =~= Seq::<char>::empty());
        assert(escaped(s) =~= Seq::<char>::empty());
        assert(escaped(sc) =~= escaped_char(c));
    } else {
        assert(sc.drop_first() =~= s.drop_first().push(c));
        lemma_escaped_push(s.drop_first(), c);
        assert(escaped(s.push(c)) =~= escaped(s) + escaped_char(c));
    }
}

fn append_escaped(v: &mut Vec<char>, s: &str)
    ensures
        final(v)@ == old(v)@ + escaped(s@),
{
    let c = chars_of(s);
    let n = c.len();
    let ghost start = v@;
    assert(c@.take(0) =~= Seq::<char>::empty());
    for i in 0..n
        invariant
            n == c@.len(),
            v@ == start + escaped(c@.take(i as int)),
    {
        proof {
            assert(c@.take(i + 1) =~= c@.take(i as int).push(c@[i as int]));
            lemma_escaped_push(c@.take(i as int), c@[i as int]);
        }
        let ch = c[i];
        if ch == '\\' {
            v.push('\\');
            v.push('\\');
        } else if ch == ':' {
            v.push('\\');
            v.push('c');
        } else {
            v.push(ch);
        }
        assert(v@ =~= start + escaped(c@.take(i + 1)));
    }
    assert(c@.take(n as int) =~= s@);
}

impl AuditEntry {
    /// A new entry stamped with the current time and sealed with its hash; `data` is held
    /// in compact JSON form, and text that is not JSON is refused with a serialization
    /// error.
    pub fn new(sequence: u64, entry_type: String, source: String, data: String, prev_hash: String) -> (r: Result<
        Self,
        AmandaError,
    >)
        ensures
            r is Ok <==> json_accepts(data@),
            r matches Ok(e) ==> {
                &&& e.sequence == sequence
                &&& e.entry_type == entry_type
                &&& e.source == source
                &&& e.data@ == json_compact_text(data@)
                &&& e.prev_hash == prev_hash
                &&& entry_sealed(e)
                &&& e.hash@.len() == 64
            },
            r matches Err(e) ==> e is Serialization,
    {
        Self::with_timestamp(sequence, Timestamp::now(), entry_type, source, data, prev_hash)
    }

    /// A new entry made at `timestamp` and sealed with its hash; `data` is held in compact
    /// JSON form, and text that is not JSON is refused with a serialization error.
    pub fn with_timestamp(
        sequence: u64,
        timestamp: Timestamp,
        entry_type: String,
        source: String,
        data: String,
        prev_hash: String,
    ) -> (r: Result<Self, AmandaError>)
        ensures
            r is Ok <==> json_accepts(data@),
            r matches Ok(e) ==> {
                &&& e.sequence == sequence
                &&& e.timestamp == timestamp
                &&& e.entry_type == entry_type
                &&& e.source == source
                &&& e.data@ == json_compact_text(data@)
                &&& e.prev_hash == prev_hash
                &&& entry_sealed(e)
                &&& e.hash@.len() == 64
            },
            r matches Err(e) ==> e is Serialization,
    {
        let data = match compact_json(data.as_str()) {
            Ok(compact) => compact,
            Err(message) => return Err(AmandaError::Serialization(message)),
        };
        let mut entry = AuditEntry {
            sequence,
            timestamp,
            entry_type,
            source,
            data,
            prev_hash,
            hash: String::new(),
        };
        let h = entry.calculate_hash();
        entry.hash = h;
        Ok(entry)
    }

    /// The hash of this entry, computed from all fields except the hash itself.
    pub fn calculate_hash(&self) -> (r: String)
        ensures
            r@ == entry_digest(*self),
            r@.len() == 64,
    {
        let mut v: Vec<char> = Vec::new();
        push_decimal(self.sequence, &mut v);
        v.push(':');
        let time_text = self.timestamp.to_rfc3339();
        append_text(&mut v, time_text.as_str());
        v.push(':');
        append_escaped(&mut v, self.entry_type.as_str());
        v.push(':');
        append_escaped(&mut v, self.source.as_str());
        v.push(':');
        append_escaped(&mut v, self.data.as_str());
        v.push(':');
        append_escaped(&mut v, self.prev_hash.as_str());
        assert(v@ =~= hash_input(*self));
        let input = string_of(&v);
        let digest = sha256(input.as_str().as_bytes());
        proof {
            lemma_hex_lower_shape(digest@);
        }
        hex_string(digest.as_slice())
    }

    /// Whether the stored hash is the hash of this entry's contents.
    pub fn verify_hash(&self) -> (r: bool)
        ensures
            r == entry_sealed(*self),
    {
        let h = self.calculate_hash();
        self.hash == h
    }
}

/// Audit trail container.
#[derive(Debug, Clone, PartialEq)]
pub struct AuditTrail {
    pub metadata: AmandaMetadata,
    pub entries: Vec<AuditEntry>,
}

impl AuditTrail {
    /// A new, empty trail for the tool `generator` running on `hostname`.
    pub fn new(generator: String, hostname: Option<String>) -> (r: Self)
        ensures
            r.entries@.len() == 0,
            r.metadata.generator == generator,
            r.metadata.hostname == hostname,
            r.metadata.version@ == crate::FORMAT_VERSION@,
    {
        AuditTrail { metadata: AmandaMetadata::new(generator, hostname), entries: Vec::new() }
    }

    /// The hash of the last entry (empty text if there is none).
    pub fn last_hash(&self) -> (r: String)
        ensures
            r@ == chain_tip(self.entries@),
    {
        let n = self.entries.len();
        if n == 0 {
            String::new()
        } else {
            self.entries[n - 1].hash.clone()
        }
    }

    /// Appends a new entry, numbered by its position and linked to the last entry's hash,
    /// its data held in compact JSON form; `data` that is not JSON text is refused with a
    /// serialization error and the trail is left as it was.
    pub fn add_entry(&mut self, entry_type: String, source: String, data: String) -> (r: Result<
        &AuditEntry,
        AmandaError,
    >)
        ensures
            r is Ok <==> json_accepts(data@),
            r matches Ok(e) ==> {
                &&& final(self).metadata == old(self).metadata
                &&& final(self).entries@.len() == old(self).entries@.len() + 1
                &&& final(self).entries@.drop_last() == old(self).entries@
                &&& *e == final(self).entries@.last()
                &&& e.sequence == old(self).entries@.len()
                &&& e.entry_type == entry_type
                &&& e.source == source
                &&& e.data@ == json_compact_text(data@)
                &&& e.prev_hash@ == chain_tip(old(self).entries@)
                &&& entry_sealed(*e)
                &&& e.hash@.len() == 64
            },
            r matches Err(e) ==> e is Serialization && *final(self) == *old(self),
            chain_valid(old(self).entries@) ==> chain_valid(final(self).entries@),
            sequenced(old(self).entries@) ==> sequenced(final(self).entries@),
    {
        let sequence = self.entries.len() as u64;
        let prev_hash = self.last_hash();
        let entry = match AuditEntry::new(sequence, entry_type, source, data, prev_hash) {
            Ok(entry) => entry,
            Err(e) => return Err(e),
        };
        self.entries.push(entry);
        let ghost old_entries = old(self).entries@;
        let ghost new_entries = self.entries@;
        assert(new_entries.drop_last() =~= old_entries);
        assert(chain_valid(old_entries) ==> chain_valid(new_entries)) by {
            if chain_valid(old_entries) {
                assert forall|i: int| 0 <= i < new_entries.len() implies #[trigger] entry_in_chain(new_entries, i) by {
                    if i < old_entries.len() {
                        assert(entry_in_chain(old_entries, i));
                    }
                }
            }
        }
        let n = self.entries.len();
        Ok(&self.entries[n - 1])
    }

    /// Checks the whole hash chain: `Ok` if every entry is sealed and linked to its
    /// predecessor (the first to none), else the error names the first entry that is not.
    pub fn verify_chain(&self) -> (r: Result<(), AmandaError>)
        ensures
            r is Ok <==> chain_valid(self.entries@),
            r matches Err(e) ==> (e matches AmandaError::HashChainViolation { index } && {
                &&& index < self.entries@.len()
                &&& !entry_in_chain(self.entries@, index as int)
                &&& forall|j: int| 0 <= j < index ==> #[trigger] entry_in_chain(self.entries@, j)
            }),
    {
        let n = self.entries.len();
        for i in 0..n
            invariant
                n == self.entries@.len(),
                forall|j: int| 0 <= j < i ==> #[trigger] entry_in_chain(self.entries@, j),
        {
            if !self.entries[i].verify_hash() {
                assert(!entry_in_chain(self.entries@, i as int));
                return Err(AmandaError::HashChainViolation { index: i });
            }
            if i == 0 {
                if !self.entries[i].prev_hash.as_str().is_empty() {
                    assert(!entry_in_chain(self.entries@, i as int));
                    return Err(AmandaError::HashChainViolation { index: i });
                }
                assert(self.entries@[0].prev_hash@ =~= Seq::<char>::empty());
            } else {
                if self.entries[i].prev_hash != self.entries[i - 1].hash {
                    assert(!entry_in_chain(self.entries@, i as int));
                    return Err(AmandaError::HashChainViolation { index: i });
                }
            }
            assert(entry_in_chain(self.entries@, i as int));
        }
        Ok(())
    }
}

/// A trail with no entries verifies; with `add_entry` keeping the chain valid, so
/// does every trail built from an empty one by adding entries.
pub proof fn lemma_empty_chain_valid()
    ensures
        chain_valid(Seq::<AuditEntry>::empty()),
        sequenced(Seq::<AuditEntry>::empty()),
{
}

/// Hex text has two digits per byte, each a lowercase hexadecimal digit.
pub proof fn lemma_hex_lower_shape(bytes: Seq<u8>)
    ensures
        hex_lower(bytes).len() == 2 * bytes.len(),
        forall|i: int| 0 <= i < hex_lower(bytes).len() ==> {
            let c = #[trigger] hex_lower(bytes)[i];
            ('0' <= c && c <= '9') || ('a' <= c && c <= 'f')
        },
    decreases bytes.len(),
{
    if bytes.len() > 0 {
        lemma_hex_lower_shape(bytes.drop_last());
        let hi = (bytes.last() / 16) as nat;
        let lo = (bytes.last() % 16) as nat;
        assert(hex_lower(bytes) == hex_lower(bytes.drop_last()) + seq![hex_digit(hi), hex_digit(lo)]);
    }
}

/// A trail whose chain verifies detects any rewrite of an entry that changes what
/// its hash should be, except a rewrite of the newest entry that also re-seals it:
/// after such a rewrite, the chain no longer verifies.
pub proof fn lemma_tamper_detected(entries: Seq<AuditEntry>, i: int, forged: AuditEntry)
    requires
        chain_valid(entries),
        0 <= i < entries.len(),
        entry_digest(forged) != entry_digest(entries[i]),
        i + 1 < entries.len() || forged.hash == entries[i].hash,
    ensures
        !chain_valid(entries.update(i, forged)),
{
    let t = entries.update(i, forged);
    assert(entry_in_chain(entries, i));
    if forged.hash@ == entries[i].hash@ {
        assert(!entry_in_chain(t, i));
    } else {
        assert(entry_in_chain(entries, i + 1));
        assert(!entry_in_chain(t, i + 1));
    }
}

/// Removing the first entries of a trail whose chain verifies is detected: what is left
/// no longer verifies. (The last entry removed has a hash, as every hash `add_entry`
/// makes does: 64 hex digits.)
pub proof fn lemma_leading_removal_detected(entries: Seq<AuditEntry>, k: int)
    requires
        chain_valid(entries),
        0 < k < entries.len(),
        entries[k - 1].hash@.len() > 0,
    ensures
        !chain_valid(entries.skip(k)),
{
    assert(entry_in_chain(entries, k));
    assert(entries.skip(k)[0] == entries[k]);
    assert(!entry_in_chain(entries.skip(k), 0));
}

/// Changing the previous hash of any entry of a trail whose chain verifies is detected
/// whatever the entry's stored hash: the chain no longer verifies.
pub proof fn lemma_link_change_detected(entries: Seq<AuditEntry>, i: int, forged: AuditEntry)
    requires
        chain_valid(entries),
        0 <= i < entries.len(),
        forged.prev_hash@ != entries[i].prev_hash@,
    ensures
        !chain_valid(entries.update(i, forged)),
{
    assert(entry_in_chain(entries, i));
    assert(!entry_in_chain(entries.update(i, forged), i));
}

/// The text holds no `:`.
pub open spec fn colon_free(s: Seq<char>) -> bool {
    forall|i: int| 0 <= i < s.len() ==> #[trigger] s[i] != ':'
}

/// An escaped field holds no bare `:`.
pub proof fn lemma_escaped_colon_free(s: Seq<char>)
    ensures
        colon_free(escaped(s)),
    decreases s.len(),
{
    if s.len() > 0 {
        lemma_escaped_colon_free(s.drop_first());
        let h = escaped_char(s[0]);
        let e = escaped(s);
        assert forall|i: int| 0 <= i < e.len() implies #[trigger] e[i] != ':' by {
            if i >= h.len() {
                assert(e[i] == escaped(s.drop_first())[i - h.len()]);
            }
        }
    }
}

/// Different texts escape differently.
pub proof fn lemma_escaped_injective(a: Seq<char>, b: Seq<char>)
    requires
        escaped(a) == escaped(b),
    ensures
        a == b,
    decreases a.len(),
{
    if a.len() == 0 {
        if b.len() > 0 {
            assert(escaped(b).len() > 0);
        }
    } else if b.len() == 0 {
        assert(escaped(a).len() > 0);
    } else {
        let x = escaped(a);
        let ha = escaped_char(a[0]);
        let hb = escaped_char(b[0]);
        assert(x == ha + escaped(a.drop_first()));
        assert(x == hb + escaped(b.drop_first()));
        assert(x[0] == ha[0] && x[0] == hb[0]);
        if ha.len() == 2 {
            assert(x[1] == ha[1]);
        }
        if hb.len() == 2 {
            assert(x[1] == hb[1]);
        }
        assert(a[0] == b[0]);
        assert(escaped(a.drop_first()) =~= x.skip(ha.len() as int));
        assert(escaped(b.drop_first()) =~= x.skip(hb.len() as int));
        lemma_escaped_injective(a.drop_first(), b.drop_first());
        assert(a =~= seq![a[0]] + a.drop_first());
        assert(b =~= seq![b[0]] + b.drop_first());
    }
}

/// A text ending in `:` and a colon-free field is split there in one way only.
pub proof fn lemma_split_last_colon(x: Seq<char>, e: Seq<char>, y: Seq<char>, f: Seq<char>)
    requires
        x + seq![':'] + e == y + seq![':'] + f,
        colon_free(e),
        colon_free(f),
    ensures
        x == y,
        e == f,
{
    let xc = x + seq![':'];
    let yc = y + seq![':'];
    let t = xc + e;
    let u = yc + f;
    assert(t.len() == u.len());
    assert(xc[x.len() as int] == ':');
    assert(yc[y.len() as int] == ':');
    if e.len() < f.len() {
        let k: int = x.len() - yc.len();
        assert(0 <= k < f.len());
        assert(t[x.len() as int] == ':');
        assert(u[x.len() as int] == f[k]);
        assert(f[k] != ':');
        assert(false);
    }
    if f.len() < e.len() {
        let k: int = y.len() - xc.len();
        assert(0 <= k < e.len());
        assert(u[y.len() as int] == ':');
        assert(t[y.len() as int] == e[k]);
        assert(e[k] != ':');
        assert(false);
    }
    assert(x =~= t.take(x.len() as int));
    assert(y =~= u.take(y.len() as int));
    assert(e =~= t.skip(x.len() as int + 1));
    assert(f =~= u.skip(y.len() as int + 1));
}

/// A text starting with a colon-free field and `:` is split there in one way only.
pub proof fn lemma_split_first_colon(d: Seq<char>, x: Seq<char>, g: Seq<char>, y: Seq<char>)
    requires
        d + seq![':'] + x == g + seq![':'] + y,
        colon_free(d),
        colon_free(g),
    ensures
        d == g,
        x == y,
{
    let t = d + seq![':'] + x;
    let u = g + seq![':'] + y;
    if d.len() < g.len() {
        assert(t[d.len() as int] == ':');
        assert(u[d.len() as int] == g[d.len() as int]);
        assert(false);
    }
    if g.len() < d.len() {
        assert(u[g.len() as int] == ':');
        assert(t[g.len() as int] == d[g.len() as int]);
        assert(false);
    }
    assert(d =~= t.take(d.len() as int));
    assert(g =~= u.take(g.len() as int));
    assert(x =~= t.skip(d.len() as int + 1));
    assert(y =~= u.skip(g.len() as int + 1));
}

/// A decimal numeral holds no `:`.
proof fn lemma_decimal_colon_free(n: nat)
    ensures
        colon_free(decimal(n)),
{
    lemma_decimal_digits(n);
    assert forall|i: int| 0 <= i < decimal(n).len() implies #[trigger] decimal(n)[i] != ':' by {
        assert('0' <= decimal(n)[i] && decimal(n)[i] <= '9');
    }
}

/// The hash input determines every field it is made of: two entries have the same hash
/// input exactly when they agree on sequence number, RFC 3339 time, type, source, data
/// and previous hash. So changing any one of these fields changes the hash input (for
/// the time, whenever its RFC 3339 text changes), and the stored hash is then checked
/// against the digest of a different text.
pub proof fn lemma_hash_input_determines_fields(e1: AuditEntry, e2: AuditEntry)
    ensures
        hash_input(e1) == hash_input(e2) <==> {
            &&& e1.sequence == e2.sequence
            &&& rfc3339_text(e1.timestamp@.0, e1.timestamp@.1) == rfc3339_text(e2.timestamp@.0, e2.timestamp@.1)
            &&& e1.entry_type@ == e2.entry_type@
            &&& e1.source@ == e2.source@
            &&& e1.data@ == e2.data@
            &&& e1.prev_hash@ == e2.prev_hash@
        },
{
    if hash_input(e1) == hash_input(e2) {
        let d1 = decimal(e1.sequence as nat);
        let d2 = decimal(e2.sequence as nat);
        let t1 = rfc3339_text(e1.timestamp@.0, e1.timestamp@.1);
        let t2 = rfc3339_text(e2.timestamp@.0, e2.timestamp@.1);
        lemma_escaped_colon_free(e1.entry_type@);
        lemma_escaped_colon_free(e2.entry_type@);
        lemma_escaped_colon_free(e1.source@);
        lemma_escaped_colon_free(e2.source@);
        lemma_escaped_colon_free(e1.data@);
        lemma_escaped_colon_free(e2.data@);
        lemma_escaped_colon_free(e1.prev_hash@);
        lemma_escaped_colon_free(e2.prev_hash@);
        let u1 = d1 + seq![':'] + t1;
        let u2 = d2 + seq![':'] + t2;
        let v1 = u1 + seq![':'] + escaped(e1.entry_type@);
        let v2 = u2 + seq![':'] + escaped(e2.entry_type@);
        let w1 = v1 + seq![':'] + escaped(e1.source@);
        let w2 = v2 + seq![':'] + escaped(e2.source@);
        let x1 = w1 + seq![':'] + escaped(e1.data@);
        let x2 = w2 + seq![':'] + escaped(e2.data@);
        assert(hash_input(e1) == x1 + seq![':'] + escaped(e1.prev_hash@));
        assert(hash_input(e2) == x2 + seq![':'] + escaped(e2.prev_hash@));
        lemma_split_last_colon(x1, escaped(e1.prev_hash@), x2, escaped(e2.prev_hash@));
        lemma_split_last_colon(w1, escaped(e1.data@), w2, escaped(e2.data@));
        lemma_split_last_colon(v1, escaped(e1.source@), v2, escaped(e2.source@));
        lemma_split_last_colon(u1, escaped(e1.entry_type@), u2, escaped(e2.entry_type@));
        lemma_decimal_colon_free(e1.sequence as nat);
        lemma_decimal_colon_free(e2.sequence as nat);
        lemma_split_first_colon(d1, t1, d2, t2);
        lemma_decimal_injective(e1.sequence as nat, e2.sequence as nat);
        lemma_escaped_injective(e1.entry_type@, e2.entry_type@);
        lemma_escaped_injective(e1.source@, e2.source@);
        lemma_escaped_injective(e1.data@, e2.data@);
        lemma_escaped_injective(e1.prev_hash@, e2.prev_hash@);
    }
}

/// Changing only the stored hash of a sealed entry is detected: the entry is no longer
/// sealed.
pub proof fn lemma_rehash_detected(e: AuditEntry, forged: AuditEntry)
    requires
        entry_sealed(e),
        hash_input(forged) == hash_input(e),
        forged.hash@ != e.hash@,
    ensures
        !entry_sealed(forged),
{
}

} // verus!
