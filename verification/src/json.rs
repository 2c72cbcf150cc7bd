//! JSON rendering of the peer snapshot and the model index.
//!
//! The persisted form is pinned down at the specification level, character
//! by character, so that a snapshot is a pure function of the registry
//! contents and the capture timestamp.

use vstd::prelude::*;
use vstd::string::StringExecFns;

use crate::index::ModelIndex;
use crate::registry::{PeerRegistry, RecData};

verus! {

/// The decimal digit character for `d`.
pub open spec fn dec_digit(d: nat) -> char {
    if d == 0 {
        '0'
    } else if d == 1 {
        '1'
    } else if d == 2 {
        '2'
    } else if d == 3 {
        '3'
    } else if d == 4 {
        '4'
    } else if d == 5 {
        '5'
    } else if d == 6 {
        '6'
    } else if d == 7 {
        '7'
    } else if d == 8 {
        '8'
    } else {
        '9'
    }
}

/// The lower-case hexadecimal digit character for `d`.
pub open spec fn hex_digit(d: nat) -> char {
    if d < 10 {
        dec_digit(d)
    } else if d == 10 {
        'a'
    } else if d == 11 {
        'b'
    } else if d == 12 {
        'c'
    } else if d == 13 {
        'd'
    } else if d == 14 {
        'e'
    } else {
        'f'
    }
}

/// The decimal rendering of `n`, without leading zeros (a single zero for 0).
pub open spec fn dec_of(n: nat) -> Seq<char>
    decreases n,
{
    if n < 10 {
        seq![dec_digit(n)]
    } else {
        dec_of(n / 10).push(dec_digit(n % 10))
    }
}

/// How one character is written inside a JSON string literal.
pub open spec fn escape_char(c: char) -> Seq<char> {
    if c == '"' {
        seq!['\\', '"']
    } else if c == '\\' {
        seq!['\\', '\\']
    } else if c == '\n' {
        seq!['\\', 'n']
    } else if c == '\r' {
        seq!['\\', 'r']
    } else if c == '\t' {
        seq!['\\', 't']
    } else if (c as u32) < 32 {
        seq!['\\', 'u', '0', '0', hex_digit((c as u32 / 16) as nat), hex_digit(
            (c as u32 % 16) as nat,
        )]
    } else {
        seq![c]
    }
}

/// The body of a JSON string literal for `s`.
pub open spec fn escape(s: Seq<char>) -> Seq<char>
    decreases s.len(),
{
    if s.len() == 0 {
        Seq::empty()
    } else {
        escape(s.drop_last()) + escape_char(s.last())
    }
}

/// A complete JSON string literal for `s`.
pub open spec fn quoted(s: Seq<char>) -> Seq<char> {
    seq!['"'] + escape(s) + seq!['"']
}

/// One peer record as a JSON object.
pub open spec fn record_json(k: Seq<char>, d: RecData) -> Seq<char> {
    "{\"peer_id\":"@ + quoted(k) + (",\"ip\":"@ + quoted(d.ip) + (",\"last_seen\":"@ + dec_of(
        d.last_seen as nat,
    ) + "}"@))
}

/// The comma-separated records of a snapshot.
pub open spec fn peers_items(s: Seq<(Seq<char>, RecData)>) -> Seq<char>
    decreases s.len(),
{
    if s.len() == 0 {
        Seq::empty()
    } else if s.len() == 1 {
        record_json(s[0].0, s[0].1)
    } else {
        peers_items(s.drop_last()) + seq![','] + record_json(s.last().0, s.last().1)
    }
}

/// The part of a snapshot before the timestamp digits.
pub open spec fn snapshot_prefix() -> Seq<char> {
    "{\"updated_at\":"@
}

/// The part of a snapshot after the timestamp digits: the registry contents.
pub open spec fn snapshot_suffix(s: Seq<(Seq<char>, RecData)>) -> Seq<char> {
    ",\"peers\":["@ + peers_items(s) + "]}"@
}

/// A whole peer snapshot.
pub open spec fn snapshot_json(s: Seq<(Seq<char>, RecData)>, ts: u64) -> Seq<char> {
    snapshot_prefix() + dec_of(ts as nat) + snapshot_suffix(s)
}

/// The comma-separated descriptor strings of one model-index entry.
pub open spec fn values_items(vs: Seq<Seq<char>>) -> Seq<char>
    decreases vs.len(),
{
    if vs.len() == 0 {
        Seq::empty()
    } else if vs.len() == 1 {
        quoted(vs[0])
    } else {
        values_items(vs.drop_last()) + seq![','] + quoted(vs.last())
    }
}

/// One model-index entry as a JSON member.
pub open spec fn index_entry_json(k: Seq<char>, vs: Seq<Seq<char>>) -> Seq<char> {
    quoted(k) + ":["@ + values_items(vs) + "]"@
}

/// The comma-separated members of the model index.
pub open spec fn index_items(s: Seq<(Seq<char>, Seq<Seq<char>>)>) -> Seq<char>
    decreases s.len(),
{
    if s.len() == 0 {
        Seq::empty()
    } else if s.len() == 1 {
        index_entry_json(s[0].0, s[0].1)
    } else {
        index_items(s.drop_last()) + seq![','] + index_entry_json(s.last().0, s.last().1)
    }
}

/// The whole model index as a JSON object.
pub open spec fn index_json(s: Seq<(Seq<char>, Seq<Seq<char>>)>) -> Seq<char> {
    seq!['{'] + index_items(s) + seq!['}']
}

/// A snapshot is a pure function of the registry contents and the capture
/// timestamp: two snapshots of the same contents agree everywhere but in
/// the timestamp digits.
pub proof fn lemma_snapshot_pure(s: Seq<(Seq<char>, RecData)>, t1: u64, t2: u64)
    ensures
        snapshot_json(s, t1) == snapshot_prefix() + dec_of(t1 as nat) + snapshot_suffix(s),
        snapshot_json(s, t2) == snapshot_prefix() + dec_of(t2 as nat) + snapshot_suffix(s),
{
}

/// Snapshots depend only on what the registry holds, not on how it was
/// built: two well-formed registries with the same contents render
/// identically at the same capture time.
pub proof fn lemma_snapshot_canonical(r1: PeerRegistry, r2: PeerRegistry, ts: u64)
    requires
        r1.wf(),
        r2.wf(),
        r1.as_map() == r2.as_map(),
    ensures
        snapshot_json(r1.entries(), ts) == snapshot_json(r2.entries(), ts),
{
    crate::assoc::lemma_sorted_map_canonical(r1.entries(), r2.entries());
}

fn dec_digit_x(d: u64) -> (c: char)
    requires
        d < 10,
    ensures
        c == dec_digit(d as nat),
{
    if d == 0 {
        '0'
    } else if d == 1 {
        '1'
    } else if d == 2 {
        '2'
    } else if d == 3 {
        '3'
    } else if d == 4 {
        '4'
    } else if d == 5 {
        '5'
    } else if d == 6 {
        '6'
    } else if d == 7 {
        '7'
    } else if d == 8 {
        '8'
    } else {
        '9'
    }
}

fn hex_digit_x(d: u32) -> (c: char)
    requires
        d < 16,
    ensures
        c == hex_digit(d as nat),
{
    if d < 10 {
        dec_digit_x(d as u64)
    } else if d == 10 {
        'a'
    } else if d == 11 {
        'b'
    } else if d == 12 {
        'c'
    } else if d == 13 {
        'd'
    } else if d == 14 {
        'e'
    } else {
        'f'
    }
}

/// Append the decimal rendering of `n`.
pub fn push_dec(out: &mut String, n: u64)
    ensures
        final(out)@ == old(out)@ + dec_of(n as nat),
    decreases n,
{
    if n < 10 {
        out.push(dec_digit_x(n));
        proof {
            assert(out@ =~= old(out)@ + dec_of(n as nat));
        }
    } else {
        push_dec(out, n / 10);
        out.push(dec_digit_x(n % 10));
        proof {
            assert((n / 10) as nat == (n as nat) / 10);
            assert((n % 10) as nat == (n as nat) % 10);
            assert(out@ =~= old(out)@ + dec_of(n as nat));
        }
    }
}

/// Append the escaped body of a JSON string literal for `s`.
pub fn push_escaped(out: &mut String, s: &str)
    ensures
        final(out)@ == old(out)@ + escape(s@),
{
    let ghost base = out@;
    let n: usize = s.unicode_len();
    let mut i: usize = 0;
    while i < n
        invariant
            i <= n,
            n == s@.len(),
            out@ == base + escape(s@.take(i as int)),
        decreases n - i,
    {
        let c: char = s.get_char(i);
        proof {
            assert(s@.take(i + 1).drop_last() =~= s@.take(i as int));
            assert(s@.take(i + 1).last() == s@[i as int]);
        }
        if c == '"' {
            out.push('\\');
            out.push('"');
        } else if c == '\\' {
            out.push('\\');
            out.push('\\');
        } else if c == '\n' {
            out.push('\\');
            out.push('n');
        } else if c == '\r' {
            out.push('\\');
            out.push('r');
        } else if c == '\t' {
            out.push('\\');
            out.push('t');
        } else if (c as u32) < 32 {
            out.push('\\');
            out.push('u');
            out.push('0');
            out.push('0');
            out.push(hex_digit_x((c as u32) / 16));
            out.push(hex_digit_x((c as u32) % 16));
        } else {
            out.push(c);
        }
        proof {
            assert(out@ =~= base + escape(s@.take(i + 1)));
        }
        i = i + 1;
    }
    proof {
        assert(s@.take(n as int) =~= s@);
    }
}

/// Append a complete JSON string literal for `s`.
pub fn push_quoted(out: &mut String, s: &str)
    ensures
        final(out)@ == old(out)@ + quoted(s@),
{
    out.push('"');
    push_escaped(out, s);
    out.push('"');
    proof {
        assert(out@ =~= old(out)@ + quoted(s@));
    }
}

/// Render the registry as a snapshot with capture time `ts`.
pub fn snapshot_string(reg: &PeerRegistry, ts: u64) -> (r: String)
    ensures
        r@ == snapshot_json(reg.entries(), ts),
{
    let mut out = String::new();
    out.append("{\"updated_at\":");
    push_dec(&mut out, ts);
    out.append(",\"peers\":[");
    let ghost head = snapshot_prefix() + dec_of(ts as nat) + ",\"peers\":["@;
    proof {
        assert(out@ =~= head);
    }
    let n: usize = reg.len();
    let mut i: usize = 0;
    while i < n
        invariant
            i <= n,
            n == reg.entries().len(),
            head == snapshot_prefix() + dec_of(ts as nat) + ",\"peers\":["@,
            out@ == head + peers_items(reg.entries().take(i as int)),
        decreases n - i,
    {
        let ghost e = reg.entries();
        if i > 0 {
            out.push(',');
        }
        let rec = reg.record_at(i);
        push_record(&mut out, rec);
        proof {
            assert(e.take(i + 1).drop_last() =~= e.take(i as int));
            assert(e.take(i + 1).last() == e[i as int]);
            assert(RecData { ip: rec.ip@, last_seen: rec.last_seen } =~= e[i as int].1);
            assert(out@ =~= head + peers_items(e.take(i + 1)));
        }
        i = i + 1;
    }
    out.append("]}");
    proof {
        assert(reg.entries().take(n as int) =~= reg.entries());
        assert(out@ =~= snapshot_json(reg.entries(), ts));
    }
    out
}

/// Append one peer record as a JSON object.
fn push_record(out: &mut String, r: &crate::registry::PeerRecord)
    ensures
        final(out)@ == old(out)@ + record_json(
            r.peer_id@,
            RecData { ip: r.ip@, last_seen: r.last_seen },
        ),
{
    out.append("{\"peer_id\":");
    push_quoted(out, r.peer_id.as_str());
    out.append(",\"ip\":");
    push_quoted(out, r.ip.as_str());
    out.append(",\"last_seen\":");
    push_dec(out, r.last_seen);
    out.append("}");
    proof {
        assert(out@ =~= old(out)@ + record_json(
            r.peer_id@,
            RecData { ip: r.ip@, last_seen: r.last_seen },
        ));
    }
}

/// Append one model-index entry as a JSON member.
fn push_index_entry(out: &mut String, e: &crate::index::IndexEntry)
    ensures
        final(out)@ == old(out)@ + index_entry_json(e.key@, e.values.deep_view()),
{
    push_quoted(out, e.key.as_str());
    out.append(":[");
    let ghost head = old(out)@ + quoted(e.key@) + ":["@;
    proof {
        assert(out@ =~= head);
    }
    let ghost vs = e.values.deep_view();
    let n: usize = e.values.len();
    let mut i: usize = 0;
    while i < n
        invariant
            i <= n,
            n == vs.len(),
            vs == e.values.deep_view(),
            vs.len() == e.values@.len(),
            forall|j: int| 0 <= j < n ==> vs[j] == #[trigger] e.values@[j]@,
            out@ == head + values_items(vs.take(i as int)),
        decreases n - i,
    {
        if i > 0 {
            out.push(',');
        }
        push_quoted(out, e.values[i].as_str());
        proof {
            assert(vs.take(i + 1).drop_last() =~= vs.take(i as int));
            assert(vs.take(i + 1).last() == vs[i as int]);
            assert(out@ =~= head + values_items(vs.take(i + 1)));
        }
        i = i + 1;
    }
    out.append("]");
    proof {
        assert(vs.take(n as int) =~= vs);
        assert(out@ =~= old(out)@ + index_entry_json(e.key@, e.values.deep_view()));
    }
}

/// Render the model index for persistence.
pub fn index_string(idx: &ModelIndex) -> (r: String)
    ensures
        r@ == index_json(idx.entry_seq()),
{
    let mut out = String::new();
    out.push('{');
    proof {
        assert(out@ =~= seq!['{']);
    }
    let n: usize = idx.len();
    let mut i: usize = 0;
    while i < n
        invariant
            i <= n,
            n == idx.entry_seq().len(),
            out@ == seq!['{'] + index_items(idx.entry_seq().take(i as int)),
        decreases n - i,
    {
        let ghost e = idx.entry_seq();
        if i > 0 {
            out.push(',');
        }
        push_index_entry(&mut out, idx.entry_at(i));
        proof {
            assert(e.take(i + 1).drop_last() =~= e.take(i as int));
            assert(e.take(i + 1).last() == e[i as int]);
            assert(out@ =~= seq!['{'] + index_items(e.take(i + 1)));
        }
        i = i + 1;
    }
    out.push('}');
    proof {
        assert(idx.entry_seq().take(n as int) =~= idx.entry_seq());
        assert(out@ =~= index_json(idx.entry_seq()));
    }
    out
}

} // verus!
