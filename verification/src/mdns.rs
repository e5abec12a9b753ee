//! mDNS discovery of cast receivers: the query packet and the reading of
//! names and TXT records out of answers.
use vstd::prelude::*;
use vstd::string::StringSliceAdditionalSpecFns;
use vstd::slice::slice_subrange;
use vstd::utf8::{decode_utf8, valid_utf8};

use crate::lyrics::{find_char, find_char_from, lemma_find_char_from_bounds};
use crate::numfmt::{decimal, push_decimal};
use crate::text::{utf8_string, chars_of, join, lemma_split_on_nonempty, lemma_split_on_step, split_on, trim_char_end};

verus! {

// ---------------------------------------------------------------------------
// Query packets
// ---------------------------------------------------------------------------

/// The labels of a service name: the name without trailing dots, split at
/// every '.'.
pub open spec fn query_labels(service: Seq<u8>) -> Seq<Seq<u8>> {
    split_on(trim_char_end(service, 46u8), 46u8)
}

/// Labels in DNS wire format: each one preceded by its length byte.
pub open spec fn encode_labels(ls: Seq<Seq<u8>>) -> Seq<u8>
    decreases ls.len(),
{
    if ls.len() == 0 {
        seq![]
    } else {
        encode_labels(ls.drop_last()) + seq![(ls.last().len() % 256) as u8] + ls.last()
    }
}

/// The fixed header of a one-question standard query with transaction id 0.
pub open spec fn query_header() -> Seq<u8> {
    seq![0u8, 0u8, 0u8, 0u8, 0u8, 1u8, 0u8, 0u8, 0u8, 0u8, 0u8, 0u8]
}

/// A PTR query for `service` that asks for a unicast reply (class IN with
/// the QU bit set).
pub open spec fn mdns_query_bytes(service: Seq<u8>) -> Seq<u8> {
    query_header() + encode_labels(query_labels(service)) + seq![0u8, 0u8, 0x0Cu8, 0x80u8, 0x01u8]
}

fn push_label(pkt: &mut Vec<u8>, label: &Vec<u8>)
    ensures
        final(pkt)@ == old(pkt)@ + seq![(label@.len() % 256) as u8] + label@,
{
    pkt.push((label.len() % 256) as u8);
    let mut i: usize = 0;
    let ghost start = pkt@;
    while i < label.len()
        invariant
            i <= label.len(),
            pkt@ == start + label@.take(i as int),
        decreases label.len() - i,
    {
        pkt.push(label[i]);
        i = i + 1;
        assert(label@.take(i as int) == label@.take((i - 1) as int).push(label@[i - 1]));
    }
    assert(label@.take(label.len() as int) == label@);
}

/// Builds the mDNS query packet that asks for the instances of `service`
/// (for example "_googlecast._tcp.local.").
pub fn mdns_query(service: &str) -> (pkt: Vec<u8>)
    ensures
        pkt@ == mdns_query_bytes(service.spec_bytes()),
{
    let bytes = service.as_bytes();
    let mut end: usize = bytes.len();
    assert(bytes@.take(end as int) == bytes@);
    while end > 0 && bytes[end - 1] == 46u8
        invariant
            end <= bytes.len(),
            trim_char_end(bytes@, 46u8) == trim_char_end(bytes@.take(end as int), 46u8),
        decreases end,
    {
        assert(bytes@.take(end as int).drop_last() == bytes@.take(end - 1));
        end = end - 1;
    }
    let ghost trimmed = bytes@.take(end as int);
    assert(trim_char_end(trimmed, 46u8) == trimmed);
    let mut pkt: Vec<u8> = vec![0u8, 0u8, 0u8, 0u8, 0u8, 1u8, 0u8, 0u8, 0u8, 0u8, 0u8, 0u8];
    let mut cur: Vec<u8> = Vec::new();
    let mut k: usize = 0;
    assert(trimmed.take(0) == Seq::<u8>::empty());
    while k < end
        invariant
            k <= end <= bytes.len(),
            trimmed == bytes@.take(end as int),
            split_on(trimmed.take(k as int), 46u8).len() >= 1,
            cur@ == split_on(trimmed.take(k as int), 46u8).last(),
            pkt@ == query_header() + encode_labels(
                split_on(trimmed.take(k as int), 46u8).drop_last(),
            ),
        decreases end - k,
    {
        let b = bytes[k];
        let ghost ls = split_on(trimmed.take(k as int), 46u8);
        proof {
            assert(trimmed.take(k + 1) == trimmed.take(k as int).push(b));
            lemma_split_on_step(trimmed.take(k as int), b, 46u8);
        }
        if b == 46u8 {
            proof {
                let ls2 = ls.push(seq![]);
                assert(ls2.drop_last() == ls);
                assert(encode_labels(ls) == encode_labels(ls.drop_last()) + seq![
                    (ls.last().len() % 256) as u8,
                ] + ls.last());
            }
            push_label(&mut pkt, &cur);
            cur = Vec::new();
        } else {
            cur.push(b);
            proof {
                let ls2 = ls.update(ls.len() - 1, ls.last().push(b));
                assert(ls2.drop_last() == ls.drop_last());
            }
        }
        k = k + 1;
    }
    assert(trimmed.take(end as int) == trimmed);
    let ghost ls = split_on(trimmed, 46u8);
    push_label(&mut pkt, &cur);
    assert(encode_labels(ls) == encode_labels(ls.drop_last()) + seq![
        (ls.last().len() % 256) as u8,
    ] + ls.last());
    pkt.push(0u8);
    pkt.push(0u8);
    pkt.push(0x0Cu8);
    pkt.push(0x80u8);
    pkt.push(0x01u8);
    pkt
}

// ---------------------------------------------------------------------------
// Reading names and integers
// ---------------------------------------------------------------------------

/// A big-endian 16-bit integer.
pub open spec fn be16(hi: u8, lo: u8) -> u16 {
    (hi as int * 256 + lo as int) as u16
}

/// The big-endian 16-bit integer at `pos`, when two bytes are there.
pub open spec fn read_u16_at(buf: Seq<u8>, pos: int) -> Option<u16> {
    if 0 <= pos && pos + 2 <= buf.len() {
        Some(be16(buf[pos], buf[pos + 1]))
    } else {
        None
    }
}

/// Reads a big-endian 16-bit integer at `pos`.
pub fn dns_read_u16(buf: &[u8], pos: usize) -> (r: Option<u16>)
    ensures
        r == read_u16_at(buf@, pos as int),
{
    if pos < buf.len() && buf.len() - pos >= 2 {
        let hi = buf[pos] as u16;
        let lo = buf[pos + 1] as u16;
        Some(hi * 256 + lo)
    } else {
        None
    }
}

/// Following a (possibly compressed) name from offset `i` for at most
/// `fuel` steps: its raw labels and the offset just past the name as it is
/// written at the starting point (after the terminating zero, or after the
/// first compression pointer).
pub open spec fn name_walk(buf: Seq<u8>, i: int, fuel: nat) -> Option<(Seq<Seq<u8>>, int)>
    decreases fuel,
{
    if fuel == 0 || i < 0 || i >= buf.len() {
        None
    } else {
        let b = buf[i] as int;
        if b == 0 {
            Some((seq![], i + 1))
        } else if b >= 192 {
            if i + 1 >= buf.len() {
                None
            } else {
                let ptr = (b - 192) * 256 + buf[i + 1] as int;
                match name_walk(buf, ptr, (fuel - 1) as nat) {
                    Some((ls, _)) => Some((ls, i + 2)),
                    None => None,
                }
            }
        } else if i + 1 + b > buf.len() {
            None
        } else {
            match name_walk(buf, i + 1 + b, (fuel - 1) as nat) {
                Some((ls, e)) => Some((seq![buf.subrange(i + 1, i + 1 + b)] + ls, e)),
                None => None,
            }
        }
    }
}

/// Steps a name walk may take: a walk that ends at all ends within this
/// many steps, since it reads increasing offsets until its first pointer
/// and distinct offsets after it.
pub open spec fn walk_fuel(buf: Seq<u8>) -> nat {
    (2 * buf.len()) as nat
}

pub open spec fn all_utf8(ls: Seq<Seq<u8>>) -> bool {
    forall|k: int| 0 <= k < ls.len() ==> valid_utf8(#[trigger] ls[k])
}

pub open spec fn decoded(ls: Seq<Seq<u8>>) -> Seq<Seq<char>> {
    ls.map_values(|l: Seq<u8>| decode_utf8(l))
}

/// The dotted name at `pos` and the offset just past it: `None` when the
/// name runs off the buffer, its pointers never reach a terminator, or a
/// label is not UTF-8.
pub open spec fn dns_name_at(buf: Seq<u8>, pos: int) -> Option<(Seq<char>, int)> {
    match name_walk(buf, pos, walk_fuel(buf)) {
        Some((ls, e)) => if all_utf8(ls) {
            Some((join(decoded(ls), seq!['.']), e))
        } else {
            None
        },
        None => None,
    }
}


fn push_string_chars(out: &mut Vec<char>, s: &String)
    ensures
        final(out)@ == old(out)@ + s@,
{
    let mut tmp = crate::text::chars_of(s.as_str());
    let ghost start = out@;
    let mut i: usize = 0;
    while i < tmp.len()
        invariant
            i <= tmp.len(),
            tmp@ == s@,
            out@ == start + tmp@.take(i as int),
        decreases tmp.len() - i,
    {
        out.push(tmp[i]);
        i = i + 1;
        assert(tmp@.take(i as int) == tmp@.take((i - 1) as int).push(tmp@[i - 1]));
    }
    assert(tmp@.take(tmp.len() as int) == tmp@);
}

proof fn lemma_join_dot_push(ls: Seq<Seq<u8>>, l: Seq<u8>)
    ensures
        join(decoded(ls.push(l)), seq!['.']) == if ls.len() == 0 {
            decode_utf8(l)
        } else {
            join(decoded(ls), seq!['.']) + seq!['.'] + decode_utf8(l)
        },
{
    let d = decoded(ls.push(l));
    assert(d.drop_last() == decoded(ls));
    if ls.len() == 0 {
        assert(d.len() == 1);
    }
}

/// Reads the (possibly compressed) domain name at `pos`: the labels joined
/// by '.', and the offset just past the name where it is written.
pub fn dns_name(buf: &[u8], pos: usize) -> (r: Option<(String, usize)>)
    requires
        buf@.len() <= usize::MAX / 2,
    ensures
        match r {
            Some((name, end)) => dns_name_at(buf@, pos as int) == Some((name@, end as int)),
            None => dns_name_at(buf@, pos as int) is None,
        },
{
    let fuel: usize = 2 * buf.len();
    let ghost total: nat = walk_fuel(buf@);
    let mut out: Vec<char> = Vec::new();
    let ghost mut acc: Seq<Seq<u8>> = seq![];
    let mut i: usize = pos;
    let mut jumped = false;
    let mut end: usize = pos;
    let mut steps: usize = 0;
    let mut has_label = false;
    assert(acc + seq![] == acc);
    loop
        invariant
            steps <= fuel,
            fuel == total,
            total == walk_fuel(buf@),
            has_label == (acc.len() > 0),
            all_utf8(acc),
            out@ == join(decoded(acc), seq!['.']),
            name_walk(buf@, pos as int, total) == match name_walk(
                buf@,
                i as int,
                (total - steps) as nat,
            ) {
                Some((ls, e)) => Some((acc + ls, if jumped {
                    end as int
                } else {
                    e
                })),
                None => None,
            },
        decreases fuel - steps,
    {
        if steps >= fuel || i >= buf.len() {
            assert(name_walk(buf@, i as int, (total - steps) as nat) is None);
            return None;
        }
        let b = buf[i] as usize;
        if b == 0 {
            if !jumped {
                end = i + 1;
            }
            let name = crate::text::string_of(&out);
            proof {
                assert(acc + seq![] == acc);
            }
            return Some((name, end));
        }
        if b >= 192 {
            if i + 1 >= buf.len() {
                assert(name_walk(buf@, i as int, (total - steps) as nat) is None);
                return None;
            }
            let ptr = (b - 192) * 256 + buf[i + 1] as usize;
            if !jumped {
                end = i + 2;
            }
            jumped = true;
            i = ptr;
            steps = steps + 1;
            continue ;
        }
        if b > buf.len() - i - 1 {
            return None;
        }
        let label = slice_subrange(buf, i + 1, i + 1 + b);
        let ghost l = buf@.subrange(i + 1, i + 1 + b);
        assert(label@ == l);
        match utf8_string(label) {
            None => {
                proof {
                    let rest = name_walk(buf@, i + 1 + b, (total - steps - 1) as nat);
                    if let Some((ls, e)) = rest {
                        let full = acc + (seq![l] + ls);
                        assert(full[acc.len() as int] == l);
                    }
                }
                return None;
            },
            Some(s) => {
                proof {
                    lemma_join_dot_push(acc, l);
                }
                if has_label {
                    out.push('.');
                }
                push_string_chars(&mut out, &s);
                has_label = true;
                proof {
                    let old_acc = acc;
                    acc = acc.push(l);
                    assert forall|k: int| 0 <= k < acc.len() implies valid_utf8(#[trigger] acc[k]) by {
                        if k < old_acc.len() {
                            assert(acc[k] == old_acc[k]);
                        }
                    }
                    assert forall|ls: Seq<Seq<u8>>| #[trigger] (old_acc + (seq![l] + ls)) == acc + ls by {
                        assert(old_acc + (seq![l] + ls) == acc + ls);
                    }
                }
                i = i + 1 + b;
                steps = steps + 1;
            },
        }
    }
}

/// The offset just past the name at `pos`.
pub fn dns_skip_name(buf: &[u8], pos: usize) -> (r: Option<usize>)
    requires
        buf@.len() <= usize::MAX / 2,
    ensures
        match r {
            Some(e) => dns_name_at(buf@, pos as int) matches Some((_, e2)) && e2 == e as int,
            None => dns_name_at(buf@, pos as int) is None,
        },
{
    match dns_name(buf, pos) {
        Some((_, e)) => Some(e),
        None => None,
    }
}


// ---------------------------------------------------------------------------
// Query names read back
// ---------------------------------------------------------------------------

/// Labels that DNS can carry one by one: none empty, each under 64 bytes.
pub open spec fn wire_labels(ls: Seq<Seq<u8>>) -> bool {
    forall|k: int| 0 <= k < ls.len() ==> 0 < (#[trigger] ls[k]).len() < 64
}

proof fn lemma_encode_front(l: Seq<u8>, rest: Seq<Seq<u8>>)
    ensures
        encode_labels(seq![l] + rest) == seq![(l.len() % 256) as u8] + l + encode_labels(rest),
    decreases rest.len(),
{
    let hd = seq![(l.len() % 256) as u8] + l;
    if rest.len() == 0 {
        assert(seq![l] + rest == seq![l]);
        assert(seq![l].drop_last() == Seq::<Seq<u8>>::empty());
        assert(seq![l].last() == l);
        assert(encode_labels(Seq::<Seq<u8>>::empty()) == Seq::<u8>::empty());
        assert(encode_labels(seq![l]) == encode_labels(seq![l].drop_last()) + seq![(l.len() % 256) as u8]
            + l);
        assert(encode_labels(seq![l]) =~= hd);
        assert(hd + encode_labels(rest) =~= hd);
    } else {
        let all = seq![l] + rest;
        assert(all.drop_last() == seq![l] + rest.drop_last());
        assert(all.last() == rest.last());
        lemma_encode_front(l, rest.drop_last());
        let tl = seq![(rest.last().len() % 256) as u8] + rest.last();
        assert(encode_labels(all) == encode_labels(seq![l] + rest.drop_last()) + seq![
            (rest.last().len() % 256) as u8,
        ] + rest.last());
        assert(encode_labels(rest) == encode_labels(rest.drop_last()) + seq![
            (rest.last().len() % 256) as u8,
        ] + rest.last());
        assert(encode_labels(all) =~= hd + encode_labels(rest));
    }
}

proof fn lemma_encode_len(ls: Seq<Seq<u8>>)
    requires
        wire_labels(ls),
    ensures
        encode_labels(ls).len() >= 2 * ls.len(),
    decreases ls.len(),
{
    if ls.len() > 0 {
        assert(wire_labels(ls.drop_last()));
        assert(ls.last().len() == ls[ls.len() - 1].len());
        lemma_encode_len(ls.drop_last());
    }
}

proof fn lemma_walk_labels(buf: Seq<u8>, i: int, ls: Seq<Seq<u8>>, fuel: nat)
    requires
        wire_labels(ls),
        0 <= i,
        i + encode_labels(ls).len() + 1 <= buf.len(),
        buf.subrange(i, i + encode_labels(ls).len() + 1) == encode_labels(ls) + seq![0u8],
        fuel >= ls.len() + 1,
    ensures
        name_walk(buf, i, fuel) == Some((ls, i + encode_labels(ls).len() + 1 as int)),
    decreases ls.len(),
{
    let enc = encode_labels(ls);
    if ls.len() == 0 {
        assert(buf[i] == buf.subrange(i, i + 1)[0]);
    } else {
        let l = ls[0];
        let rest = ls.skip(1);
        assert(ls == seq![l] + rest);
        lemma_encode_front(l, rest);
        let er = encode_labels(rest);
        let b = l.len();
        assert(0 < b < 64);
        assert(buf[i] == buf.subrange(i, i + enc.len() + 1)[0]);
        assert(buf[i] as int == b);
        assert(wire_labels(rest)) by {
            assert forall|k: int| 0 <= k < rest.len() implies 0 < (#[trigger] rest[k]).len() < 64 by {
                assert(rest[k] == ls[k + 1]);
            }
        }
        assert(buf.subrange(i + 1 + b, i + 1 + b + er.len() + 1) =~= er + seq![0u8]) by {
            assert forall|k: int| 0 <= k < er.len() + 1 implies buf.subrange(
                i + 1 + b,
                i + 1 + b + er.len() + 1,
            )[k] == (er + seq![0u8])[k] by {
                assert(buf.subrange(i, i + enc.len() + 1)[1 + b + k] == (enc + seq![0u8])[1 + b + k]);
            }
        }
        assert(buf.subrange(i + 1, i + 1 + b) =~= l) by {
            assert forall|k: int| 0 <= k < b implies buf.subrange(i + 1, i + 1 + b)[k] == l[k] by {
                assert(buf.subrange(i, i + enc.len() + 1)[1 + k] == (enc + seq![0u8])[1 + k]);
            }
        }
        lemma_walk_labels(buf, i + 1 + b, rest, (fuel - 1) as nat);
        assert(seq![buf.subrange(i + 1, i + 1 + b)] + rest == ls);
    }
}

/// Law: reading back the question of a query packet gives the labels of the
/// service that the packet asks for, and the name ends where the type and
/// class begin: whenever the service's labels are ones DNS can carry (none
/// empty, each under 64 bytes).  When the labels are UTF-8, the name read
/// is those labels joined by dots.
pub proof fn law_query_name_reads_back(service: Seq<u8>)
    requires
        wire_labels(query_labels(service)),
    ensures
        name_walk(mdns_query_bytes(service), 12, walk_fuel(mdns_query_bytes(service))) == Some(
            (query_labels(service), 12 + encode_labels(query_labels(service)).len() + 1 as int),
        ),
        all_utf8(query_labels(service)) ==> dns_name_at(mdns_query_bytes(service), 12) == Some(
            (
                join(decoded(query_labels(service)), seq!['.']),
                12 + encode_labels(query_labels(service)).len() + 1 as int,
            ),
        ),
{
    let ls = query_labels(service);
    let enc = encode_labels(ls);
    let buf = mdns_query_bytes(service);
    lemma_encode_len(ls);
    assert(buf.subrange(12, 12 + enc.len() + 1 as int) =~= enc + seq![0u8]);
    lemma_walk_labels(buf, 12, ls, walk_fuel(buf));
}

// ---------------------------------------------------------------------------
// Responses
// ---------------------------------------------------------------------------

pub proof fn lemma_name_walk_end(buf: Seq<u8>, i: int, fuel: nat)
    ensures
        name_walk(buf, i, fuel) matches Some((_, e)) ==> e <= buf.len(),
    decreases fuel,
{
    if fuel > 0 && 0 <= i < buf.len() {
        let b = buf[i] as int;
        if b >= 192 && i + 1 < buf.len() {
            lemma_name_walk_end(buf, (b - 192) * 256 + buf[i + 1] as int, (fuel - 1) as nat);
        } else if b != 0 && b < 192 && i + 1 + b <= buf.len() {
            lemma_name_walk_end(buf, i + 1 + b, (fuel - 1) as nat);
        }
    }
}

pub proof fn lemma_dns_name_end(buf: Seq<u8>, pos: int)
    ensures
        dns_name_at(buf, pos) matches Some((_, e)) ==> e <= buf.len(),
{
    lemma_name_walk_end(buf, pos, walk_fuel(buf));
}

/// The offset after the question section, when every question name reads.
pub open spec fn skip_questions(buf: Seq<u8>, pos: int, count: nat) -> Option<int>
    decreases count,
{
    if count == 0 {
        Some(pos)
    } else {
        match dns_name_at(buf, pos) {
            Some((_, e)) => skip_questions(buf, e + 4, (count - 1) as nat),
            None => None,
        }
    }
}

/// The resource records read from `pos` on, at most `count` of them:
/// owner name, type, offset and length of the record data.  Reading stops
/// at the end of the buffer or at the first record that does not fit.
pub open spec fn records(buf: Seq<u8>, pos: int, count: nat) -> Seq<(Seq<char>, u16, int, int)>
    decreases count,
{
    if count == 0 || pos >= buf.len() {
        seq![]
    } else {
        match dns_name_at(buf, pos) {
            None => seq![],
            Some((name, next)) => if next + 10 > buf.len() || next < 0 {
                seq![]
            } else {
                let rtype = be16(buf[next], buf[next + 1]);
                let rdlen = be16(buf[next + 8], buf[next + 9]) as int;
                let rdata = next + 10;
                if rdata + rdlen > buf.len() {
                    seq![]
                } else {
                    seq![(name, rtype, rdata, rdlen)] + records(buf, rdata + rdlen, (count - 1) as nat)
                }
            },
        }
    }
}

/// Position of key `k` in `ks` from `j` on, or -1.
pub open spec fn key_index_from(ks: Seq<Seq<char>>, k: Seq<char>, j: int) -> int
    decreases ks.len() - j,
{
    if j < 0 || j >= ks.len() {
        -1
    } else if ks[j] == k {
        j
    } else {
        key_index_from(ks, k, j + 1)
    }
}

pub open spec fn key_index(ks: Seq<Seq<char>>, k: Seq<char>) -> int {
    key_index_from(ks, k, 0)
}

/// Inserting into an association list: a key already present keeps its
/// place and takes the new value, a new key goes to the end.
pub open spec fn assoc_insert<V>(ks: Seq<Seq<char>>, vs: Seq<V>, k: Seq<char>, v: V) -> (
    Seq<Seq<char>>,
    Seq<V>,
) {
    let j = key_index(ks, k);
    if j >= 0 {
        (ks, vs.update(j, v))
    } else {
        (ks.push(k), vs.push(v))
    }
}

pub open spec fn assoc_get<V>(ks: Seq<Seq<char>>, vs: Seq<V>, k: Seq<char>) -> Option<V> {
    let j = key_index(ks, k);
    if j >= 0 {
        Some(vs[j])
    } else {
        None
    }
}

pub proof fn lemma_key_index_from(ks: Seq<Seq<char>>, k: Seq<char>, j: int)
    requires
        0 <= j,
    ensures
        key_index_from(ks, k, j) == -1 || (j <= key_index_from(ks, k, j) < ks.len()
            && ks[key_index_from(ks, k, j)] == k),
        key_index_from(ks, k, j) == -1 ==> forall|m: int| j <= m < ks.len() ==> ks[m] != k,
        key_index_from(ks, k, j) != -1 ==> forall|m: int|
            j <= m < key_index_from(ks, k, j) ==> ks[m] != k,
    decreases ks.len() - j,
{
    if j < ks.len() && ks[j] != k {
        lemma_key_index_from(ks, k, j + 1);
    }
}

/// The IPv4 address in the four bytes at `at`.
pub open spec fn ip_at(buf: Seq<u8>, at: int) -> (u8, u8, u8, u8) {
    (buf[at], buf[at + 1], buf[at + 2], buf[at + 3])
}

/// The table of A records: owner name to address, the last record winning.
pub open spec fn a_table(buf: Seq<u8>, recs: Seq<(Seq<char>, u16, int, int)>) -> (
    Seq<Seq<char>>,
    Seq<(u8, u8, u8, u8)>,
)
    decreases recs.len(),
{
    if recs.len() == 0 {
        (seq![], seq![])
    } else {
        let (ks, vs) = a_table(buf, recs.drop_last());
        let r = recs.last();
        if r.1 == 1 && r.3 == 4 {
            assoc_insert(ks, vs, r.0, ip_at(buf, r.2))
        } else {
            (ks, vs)
        }
    }
}

/// The "fn=" value among the character strings of a TXT record's data
/// in `buf[i..end]` (the last one wins; `found` is the value seen so far).
pub open spec fn txt_friendly_name(buf: Seq<u8>, i: int, end: int, found: Option<Seq<char>>) -> Option<
    Seq<char>,
>
    decreases end - i,
{
    if i < 0 || i >= end || end > buf.len() {
        found
    } else {
        let slen = buf[i] as int;
        let j = i + 1;
        if j + slen > end {
            found
        } else {
            let s = buf.subrange(j, j + slen);
            let f2 = if valid_utf8(s) && decode_utf8(s).len() >= 3 && decode_utf8(s).take(3)
                == seq!['f', 'n', '='] {
                Some(decode_utf8(s).skip(3))
            } else {
                found
            };
            txt_friendly_name(buf, j + slen, end, f2)
        }
    }
}

/// The table of TXT friendly names: owner name to the "fn=" value.
pub open spec fn txt_table(buf: Seq<u8>, recs: Seq<(Seq<char>, u16, int, int)>) -> (
    Seq<Seq<char>>,
    Seq<Seq<char>>,
)
    decreases recs.len(),
{
    if recs.len() == 0 {
        (seq![], seq![])
    } else {
        let (ks, vs) = txt_table(buf, recs.drop_last());
        let r = recs.last();
        if r.1 == 16 {
            match txt_friendly_name(buf, r.2, r.2 + r.3, None) {
                Some(v) => assoc_insert(ks, vs, r.0, v),
                None => (ks, vs),
            }
        } else {
            (ks, vs)
        }
    }
}

/// The table of SRV records: instance name to port and target host.
pub open spec fn srv_table(buf: Seq<u8>, recs: Seq<(Seq<char>, u16, int, int)>) -> (
    Seq<Seq<char>>,
    Seq<(u16, Seq<char>)>,
)
    decreases recs.len(),
{
    if recs.len() == 0 {
        (seq![], seq![])
    } else {
        let (ks, vs) = srv_table(buf, recs.drop_last());
        let r = recs.last();
        if r.1 == 33 && r.3 >= 6 {
            match dns_name_at(buf, r.2 + 6) {
                Some((target, _)) => assoc_insert(
                    ks,
                    vs,
                    r.0,
                    (be16(buf[r.2 + 4], buf[r.2 + 5]), target),
                ),
                None => (ks, vs),
            }
        } else {
            (ks, vs)
        }
    }
}

/// Dotted decimal text of an IPv4 address.
pub open spec fn ip_text(ip: (u8, u8, u8, u8)) -> Seq<char> {
    decimal(ip.0 as nat) + seq!['.'] + decimal(ip.1 as nat) + seq!['.'] + decimal(ip.2 as nat)
        + seq!['.'] + decimal(ip.3 as nat)
}

/// The text before the first '.' of a name.
pub open spec fn first_label(s: Seq<char>) -> Seq<char> {
    s.take(find_char_from(s, '.', 0))
}

/// One announced device from the three tables: the friendly name from TXT
/// (else the instance's first label), the address from the A record of the
/// SRV target (else `sender`), and the SRV port.
pub open spec fn device_entry(
    tk: Seq<Seq<char>>,
    tv: Seq<Seq<char>>,
    sk: Seq<Seq<char>>,
    sv: Seq<(u16, Seq<char>)>,
    ak: Seq<Seq<char>>,
    av: Seq<(u8, u8, u8, u8)>,
    sender: (u8, u8, u8, u8),
    j: int,
) -> (Seq<char>, Seq<char>, u16) {
    let name = match assoc_get(tk, tv, sk[j]) {
        Some(v) => v,
        None => first_label(sk[j]),
    };
    let ip = match assoc_get(ak, av, sv[j].1) {
        Some(a) => a,
        None => sender,
    };
    (name, ip_text(ip), sv[j].0)
}

/// The devices announced by the records, one per SRV instance in order of
/// first appearance.
pub open spec fn devices_from_records(
    buf: Seq<u8>,
    recs: Seq<(Seq<char>, u16, int, int)>,
    sender: (u8, u8, u8, u8),
) -> Seq<(Seq<char>, Seq<char>, u16)> {
    let (tk, tv) = txt_table(buf, recs);
    let (sk, sv) = srv_table(buf, recs);
    let (ak, av) = a_table(buf, recs);
    Seq::new(sk.len(), |j: int| device_entry(tk, tv, sk, sv, ak, av, sender, j))
}

/// The devices a response announces: after the header and the question
/// names, the answer and additional records are read and every SRV
/// instance yields one device.
pub open spec fn mdns_devices(buf: Seq<u8>, sender: (u8, u8, u8, u8)) -> Seq<
    (Seq<char>, Seq<char>, u16),
> {
    if buf.len() < 12 {
        seq![]
    } else {
        let qd = be16(buf[4], buf[5]) as nat;
        let an = be16(buf[6], buf[7]) as nat;
        let ar = be16(buf[10], buf[11]) as nat;
        match skip_questions(buf, 12, qd) {
            None => seq![],
            Some(pos) => devices_from_records(buf, records(buf, pos, an + ar), sender),
        }
    }
}

pub open spec fn key_views(keys: Seq<Vec<char>>) -> Seq<Seq<char>> {
    keys.map_values(|v: Vec<char>| v@)
}

pub open spec fn device_views(v: Seq<(String, String, u16)>) -> Seq<(Seq<char>, Seq<char>, u16)> {
    v.map_values(|d: (String, String, u16)| (d.0@, d.1@, d.2))
}

fn same_chars(a: &[char], b: &[char]) -> (r: bool)
    ensures
        r == (a@ == b@),
{
    if a.len() != b.len() {
        return false;
    }
    let mut i: usize = 0;
    while i < a.len()
        invariant
            a.len() == b.len(),
            i <= a.len(),
            forall|k: int| 0 <= k < i ==> a@[k] == b@[k],
        decreases a.len() - i,
    {
        if a[i] != b[i] {
            return false;
        }
        i = i + 1;
    }
    assert(a@ == b@);
    true
}

/// Position of `k` among `keys`, or `None`.
fn find_key(keys: &Vec<Vec<char>>, k: &[char]) -> (r: Option<usize>)
    ensures
        match r {
            Some(j) => key_index(key_views(keys@), k@) == j as int && j < keys.len(),
            None => key_index(key_views(keys@), k@) == -1,
        },
{
    let ghost ks = key_views(keys@);
    let mut j: usize = 0;
    while j < keys.len()
        invariant
            j <= keys.len(),
            ks == key_views(keys@),
            key_index(ks, k@) == key_index_from(ks, k@, j as int),
        decreases keys.len() - j,
    {
        if same_chars(keys[j].as_slice(), k) {
            return Some(j);
        }
        j = j + 1;
    }
    None
}

pub proof fn lemma_map_update<A, B>(s: Seq<A>, j: int, x: A, f: spec_fn(A) -> B)
    requires
        0 <= j < s.len(),
    ensures
        s.update(j, x).map_values(f) == s.map_values(f).update(j, f(x)),
{
    assert(s.update(j, x).map_values(f) =~= s.map_values(f).update(j, f(x)));
}

pub proof fn lemma_map_push<A, B>(s: Seq<A>, x: A, f: spec_fn(A) -> B)
    ensures
        s.push(x).map_values(f) == s.map_values(f).push(f(x)),
{
    assert(s.push(x).map_values(f) =~= s.map_values(f).push(f(x)));
}

fn table_insert<V>(keys: &mut Vec<Vec<char>>, vals: &mut Vec<V>, k: Vec<char>, v: V)
    requires
        old(keys).len() == old(vals).len(),
    ensures
        final(keys).len() == final(vals).len(),
        (key_views(final(keys)@), final(vals)@) == assoc_insert(
            key_views(old(keys)@),
            old(vals)@,
            k@,
            v,
        ),
{
    match find_key(keys, k.as_slice()) {
        Some(j) => {
            vals.set(j, v);
            assert(final(keys)@ == old(keys)@);
        },
        None => {
            let ghost kk = k@;
            let ghost before = keys@;
            keys.push(k);
            vals.push(v);
            assert(key_views(keys@) == key_views(before).push(kk));
        },
    }
}

pub open spec fn str_view_fn() -> spec_fn(Vec<char>) -> Seq<char> {
    |v: Vec<char>| v@
}

/// Scans the character strings of a TXT record for a "fn=" entry.
fn scan_txt(buf: &[u8], start: usize, end: usize) -> (r: Option<Vec<char>>)
    requires
        start <= end <= buf@.len(),
    ensures
        match r {
            Some(v) => txt_friendly_name(buf@, start as int, end as int, None) == Some(v@),
            None => txt_friendly_name(buf@, start as int, end as int, None) is None,
        },
{
    let mut found: Option<Vec<char>> = None;
    let mut i = start;
    let mut stopped = false;
    while i < end && !stopped
        invariant
            start <= i,
            end <= buf@.len(),
            !stopped ==> txt_friendly_name(buf@, start as int, end as int, None)
                == txt_friendly_name(
                buf@,
                i as int,
                end as int,
                match found {
                    Some(v) => Some(v@),
                    None => None,
                },
            ),
            stopped ==> txt_friendly_name(buf@, start as int, end as int, None) == match found {
                Some(v) => Some(v@),
                None => None,
            },
        decreases end - i, (if stopped { 0int } else { 1int }),
    {
        let slen = buf[i] as usize;
        let j = i + 1;
        if slen > end - j {
            stopped = true;
            continue ;
        }
        let piece = slice_subrange(buf, j, j + slen);
        assert(piece@ == buf@.subrange(j as int, j + slen));
        match utf8_string(piece) {
            Some(s) => {
                let cs = chars_of(s.as_str());
                if cs.len() >= 3 && cs[0] == 'f' && cs[1] == 'n' && cs[2] == '=' {
                    assert(cs@.take(3) == seq!['f', 'n', '=']);
                    let rest = crate::text::slice_chars(&cs, 3, cs.len());
                    assert(rest@ == cs@.skip(3));
                    found = Some(rest);
                } else {
                    assert(cs@.len() < 3 || cs@.take(3) != seq!['f', 'n', '=']) by {
                        if cs@.len() >= 3 && cs@.take(3) == seq!['f', 'n', '='] {
                            assert(cs@.take(3)[0] == 'f');
                            assert(cs@.take(3)[1] == 'n');
                            assert(cs@.take(3)[2] == '=');
                        }
                    }
                }
            },
            None => {},
        }
        i = j + slen;
    }
    found
}

/// The friendly devices announced in an mDNS response: for every SRV
/// instance, its TXT "fn=" name (else the first label of the instance name),
/// the address from the A record of its target (else `sender`), and its
/// port.
pub fn parse_mdns_response(buf: &[u8], sender: (u8, u8, u8, u8)) -> (r: Vec<(String, String, u16)>)
    requires
        buf@.len() <= usize::MAX / 2,
    ensures
        device_views(r@) == mdns_devices(buf@, sender),
{
    let mut out: Vec<(String, String, u16)> = Vec::new();
    if buf.len() < 12 {
        assert(device_views(out@) == Seq::<(Seq<char>, Seq<char>, u16)>::empty());
        return out;
    }
    let qdcount = match dns_read_u16(buf, 4) {
        Some(v) => v,
        None => 0,
    } as usize;
    let ancount = match dns_read_u16(buf, 6) {
        Some(v) => v,
        None => 0,
    } as usize;
    let arcount = match dns_read_u16(buf, 10) {
        Some(v) => v,
        None => 0,
    } as usize;

    let mut pos: usize = 12;
    let mut q: usize = 0;
    while q < qdcount
        invariant
            q <= qdcount,
            buf@.len() <= usize::MAX / 2,
            buf@.len() >= 12,
            qdcount as nat == be16(buf@[4], buf@[5]) as nat,
            pos <= buf@.len() + 4,
            skip_questions(buf@, 12, qdcount as nat) == skip_questions(
                buf@,
                pos as int,
                (qdcount - q) as nat,
            ),
        decreases qdcount - q,
    {
        match dns_skip_name(buf, pos) {
            Some(p) => {
                proof {
                    lemma_dns_name_end(buf@, pos as int);
                }
                pos = p + 4;
            },
            None => {
                let empty: Vec<(String, String, u16)> = Vec::new();
                assert(device_views(empty@) == Seq::<(Seq<char>, Seq<char>, u16)>::empty());
                return empty;
            },
        }
        q = q + 1;
    }
    let ghost start = pos as int;
    let total = ancount + arcount;
    let ghost all = records(buf@, start, total as nat);

    let mut tk: Vec<Vec<char>> = Vec::new();
    let mut tv: Vec<Vec<char>> = Vec::new();
    let mut sk: Vec<Vec<char>> = Vec::new();
    let mut sv: Vec<(u16, Vec<char>)> = Vec::new();
    let mut ak: Vec<Vec<char>> = Vec::new();
    let mut av: Vec<(u8, u8, u8, u8)> = Vec::new();
    let ghost mut done: Seq<(Seq<char>, u16, int, int)> = seq![];

    let mut k: usize = 0;
    let mut stop = false;
    while k < total && !stop
        invariant
            k <= total,
            buf@.len() <= usize::MAX / 2,
            pos <= buf@.len() + 4,
            start <= buf@.len() + 4,
            all == records(buf@, start, total as nat),
            stop ==> records(buf@, pos as int, (total - k) as nat) == Seq::<
                (Seq<char>, u16, int, int),
            >::empty(),
            all == done + records(buf@, pos as int, (total - k) as nat),
            tk.len() == tv.len(),
            sk.len() == sv.len(),
            ak.len() == av.len(),
            (key_views(tk@), tv@.map_values(str_view_fn())) == txt_table(buf@, done),
            (key_views(sk@), sv@.map_values(|p: (u16, Vec<char>)| (p.0, p.1@))) == srv_table(
                buf@,
                done,
            ),
            (key_views(ak@), av@) == a_table(buf@, done),
        decreases total - k, (if stop { 0int } else { 1int }),
    {
        if pos >= buf.len() {
            stop = true;
            continue ;
        }
        let (rname, next) = match dns_name(buf, pos) {
            Some(v) => v,
            None => {
                stop = true;
                continue ;
            },
        };
        proof {
            lemma_dns_name_end(buf@, pos as int);
        }
        if next + 10 > buf.len() {
            stop = true;
            continue ;
        }
        let rtype = match dns_read_u16(buf, next) {
            Some(v) => v,
            None => 0,
        };
        let rdlen = match dns_read_u16(buf, next + 8) {
            Some(v) => v,
            None => 0,
        } as usize;
        let rdata = next + 10;
        if rdata + rdlen > buf.len() {
            stop = true;
            continue ;
        }
        let ghost rec = (rname@, rtype, rdata as int, rdlen as int);
        let ghost old_done = done;
        proof {
            assert(records(buf@, pos as int, (total - k) as nat) == seq![rec] + records(
                buf@,
                rdata + rdlen,
                (total - k - 1) as nat,
            ));
            done = done.push(rec);
            assert(all == done + records(buf@, rdata + rdlen, (total - k - 1) as nat));
            assert(done.drop_last() == old_done);
        }
        let name_chars = chars_of(rname.as_str());
        if rtype == 1 {
            if rdlen == 4 {
                let ip = (buf[rdata], buf[rdata + 1], buf[rdata + 2], buf[rdata + 3]);
                table_insert(&mut ak, &mut av, name_chars, ip);
            }
        } else if rtype == 16 {
            match scan_txt(buf, rdata, rdata + rdlen) {
                Some(v) => {
                    let ghost before = tv@;
                    let ghost kb = key_views(tk@);
                    let ghost vv = v@;
                    table_insert(&mut tk, &mut tv, name_chars, v);
                    proof {
                        let j = key_index(kb, rname@);
                        lemma_key_index_from(kb, rname@, 0);
                        if j >= 0 {
                            lemma_map_update(before, j, v, str_view_fn());
                        } else {
                            lemma_map_push(before, v, str_view_fn());
                        }
                        assert(tv@.map_values(str_view_fn()) == (if j >= 0 {
                            before.map_values(str_view_fn()).update(j, vv)
                        } else {
                            before.map_values(str_view_fn()).push(vv)
                        }));
                    }
                },
                None => {},
            }
        } else if rtype == 33 {
            if rdlen >= 6 {
                let port = match dns_read_u16(buf, rdata + 4) {
                    Some(v) => v,
                    None => 8009,
                };
                match dns_name(buf, rdata + 6) {
                    Some((target, _)) => {
                        let tchars = chars_of(target.as_str());
                        let ghost before = sv@;
                        let ghost kb = key_views(sk@);
                        let ghost pv = (port, tchars@);
                        let ghost pair = (port, tchars);
                        table_insert(&mut sk, &mut sv, name_chars, (port, tchars));
                        proof {
                            let f = |p: (u16, Vec<char>)| (p.0, p.1@);
                            let j = key_index(kb, rname@);
                            lemma_key_index_from(kb, rname@, 0);
                            if j >= 0 {
                                lemma_map_update(before, j, pair, f);
                            } else {
                                lemma_map_push(before, pair, f);
                            }
                            assert(sv@.map_values(f) == (if j >= 0 {
                                before.map_values(f).update(j, pv)
                            } else {
                                before.map_values(f).push(pv)
                            }));
                        }
                    },
                    None => {},
                }
            }
        }
        pos = rdata + rdlen;
        k = k + 1;
    }
    assert(done == all);
    let ghost tkv = key_views(tk@);
    let ghost tvv = tv@.map_values(str_view_fn());
    let ghost skv = key_views(sk@);
    let ghost svv = sv@.map_values(|p: (u16, Vec<char>)| (p.0, p.1@));
    let ghost akv = key_views(ak@);
    let ghost avv = av@;
    let ghost expected = Seq::new(
        skv.len(),
        |j: int| device_entry(tkv, tvv, skv, svv, akv, avv, sender, j),
    );
    assert(expected == devices_from_records(buf@, all, sender));

    let mut j: usize = 0;
    while j < sk.len()
        invariant
            j <= sk.len(),
            sk.len() == sv.len(),
            tk.len() == tv.len(),
            ak.len() == av.len(),
            tkv == key_views(tk@),
            tvv == tv@.map_values(str_view_fn()),
            skv == key_views(sk@),
            svv == sv@.map_values(|p: (u16, Vec<char>)| (p.0, p.1@)),
            akv == key_views(ak@),
            avv == av@,
            expected == Seq::new(
                skv.len(),
                |j: int| device_entry(tkv, tvv, skv, svv, akv, avv, sender, j),
            ),
            device_views(out@) == expected.take(j as int),
        decreases sk.len() - j,
    {
        let ghost e = expected[j as int];
        let name: Vec<char> = match find_key(&tk, sk[j].as_slice()) {
            Some(t) => {
                assert(tvv[t as int] == tv@[t as int]@);
                crate::text::slice_chars(tv[t].as_slice(), 0, tv[t].len())
            },
            None => {
                let inst = &sk[j];
                let dot = find_char(inst.as_slice(), '.', 0);
                proof {
                    lemma_find_char_from_bounds(inst@, '.', 0);
                }
                crate::text::slice_chars(inst.as_slice(), 0, dot)
            },
        };
        assert(name@ == e.0);
        let ip = match find_key(&ak, sv[j].1.as_slice()) {
            Some(t) => av[t],
            None => sender,
        };
        let mut ipc: Vec<char> = Vec::new();
        push_decimal(&mut ipc, ip.0 as u64);
        ipc.push('.');
        push_decimal(&mut ipc, ip.1 as u64);
        ipc.push('.');
        push_decimal(&mut ipc, ip.2 as u64);
        ipc.push('.');
        push_decimal(&mut ipc, ip.3 as u64);
        assert(ipc@ == e.1);
        let ghost before = out@;
        out.push((crate::text::string_of(&name), crate::text::string_of(&ipc), sv[j].0));
        assert(expected.take(j + 1) == expected.take(j as int).push(e));
        assert(device_views(out@) == device_views(before).push(e));
        j = j + 1;
    }
    assert(expected.take(expected.len() as int) == expected);
    out
}

} // verus!
