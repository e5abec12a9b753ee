//! Last.fm: request signing, credentials, scrobble fields, the
//! authentication flow and the user's taste profile.
use vstd::prelude::*;
use crate::json::{
    json_error_of, json_str_at, json_text_at, json_null_at, str_or_empty, json_syntax, json_str, json_text,
    json_null, string_or_empty,
};
use vstd::utf8::encode_utf8;
use crate::digest::md5_hex;
use crate::subsonic::pair_views;
use crate::text::{chars_of, string_of, extend_chars, trim, trim_str, str_eq};

verus! {

pub const LASTFM_API: &'static str = "https://ws.audioscrobbler.com/2.0/";

/// The most artists a taste profile lists.
pub const TASTE_ARTIST_LIMIT: usize = 50;

// ---------------------------------------------------------------------------
// Signing
// ---------------------------------------------------------------------------

/// String order: lexicographic by character (the same as by UTF-8 byte).
pub open spec fn key_lt(a: Seq<char>, b: Seq<char>) -> bool
    decreases a.len(),
{
    if b.len() == 0 {
        false
    } else if a.len() == 0 {
        true
    } else if a[0] != b[0] {
        (a[0] as int) < (b[0] as int)
    } else {
        key_lt(a.drop_first(), b.drop_first())
    }
}

/// Inserts `p` into a list sorted by key, after every pair whose key is not
/// greater.
pub open spec fn insert_by_key(sorted: Seq<(Seq<char>, Seq<char>)>, p: (Seq<char>, Seq<char>)) -> Seq<
    (Seq<char>, Seq<char>),
>
    decreases sorted.len(),
{
    if sorted.len() == 0 {
        seq![p]
    } else if key_lt(p.0, sorted[0].0) {
        seq![p] + sorted
    } else {
        seq![sorted[0]] + insert_by_key(sorted.drop_first(), p)
    }
}

/// The pairs sorted by key, stably.
pub open spec fn sort_by_key(ps: Seq<(Seq<char>, Seq<char>)>) -> Seq<(Seq<char>, Seq<char>)>
    decreases ps.len(),
{
    if ps.len() == 0 {
        Seq::empty()
    } else {
        insert_by_key(sort_by_key(ps.drop_last()), ps.last())
    }
}

/// The parameters that take part in the signature: all but `format` and
/// `callback`.
pub open spec fn signed_part(ps: Seq<(Seq<char>, Seq<char>)>) -> Seq<(Seq<char>, Seq<char>)>
    decreases ps.len(),
{
    if ps.len() == 0 {
        Seq::empty()
    } else if ps.last().0 == "format"@ || ps.last().0 == "callback"@ {
        signed_part(ps.drop_last())
    } else {
        signed_part(ps.drop_last()).push(ps.last())
    }
}

/// Each key followed by its value, in order.
pub open spec fn concat_pairs(ps: Seq<(Seq<char>, Seq<char>)>) -> Seq<char>
    decreases ps.len(),
{
    if ps.len() == 0 {
        Seq::empty()
    } else {
        concat_pairs(ps.drop_last()) + ps.last().0 + ps.last().1
    }
}

/// The API signature: the MD5 digest, in lower-case hexadecimal, of the
/// signed parameters sorted by key and concatenated as key then value,
/// followed by the shared secret.
pub open spec fn signature(ps: Seq<(Seq<char>, Seq<char>)>, secret: Seq<char>) -> Seq<char> {
    md5_hex(encode_utf8(concat_pairs(sort_by_key(signed_part(ps))) + secret))
}

/// Whether `a` sorts strictly before `b`.
pub fn key_less(a: &Vec<char>, b: &Vec<char>) -> (r: bool)
    ensures
        r == key_lt(a@, b@),
{
    let mut i: usize = 0;
    assert(a@.skip(0) == a@ && b@.skip(0) == b@);
    while i < a.len() && i < b.len() && a[i] == b[i]
        invariant
            i <= a@.len(),
            i <= b@.len(),
            key_lt(a@, b@) == key_lt(a@.skip(i as int), b@.skip(i as int)),
        decreases a.len() - i,
    {
        proof {
            assert(a@.skip(i as int).drop_first() == a@.skip(i + 1));
            assert(b@.skip(i as int).drop_first() == b@.skip(i + 1));
        }
        i = i + 1;
    }
    if i == b.len() {
        false
    } else if i == a.len() {
        true
    } else {
        a[i] < b[i]
    }
}

proof fn lemma_insert_at(s: Seq<(Seq<char>, Seq<char>)>, p: (Seq<char>, Seq<char>), j: int)
    requires
        0 <= j <= s.len(),
        forall|i: int| 0 <= i < j ==> !key_lt(p.0, #[trigger] s[i].0),
        j < s.len() ==> key_lt(p.0, s[j].0),
    ensures
        insert_by_key(s, p) == s.take(j).push(p) + s.skip(j),
    decreases s.len(),
{
    if s.len() == 0 {
        assert(s.take(0).push(p) + s.skip(0) =~= seq![p]);
    } else if j == 0 {
        assert(s.take(0).push(p) + s.skip(0) =~= seq![p] + s);
    } else {
        let t = s.drop_first();
        assert forall|i: int| 0 <= i < j - 1 implies !key_lt(p.0, #[trigger] t[i].0) by {
            assert(t[i] == s[i + 1]);
        }
        lemma_insert_at(t, p, j - 1);
        assert(seq![s[0]] + (t.take(j - 1).push(p) + t.skip(j - 1)) =~= s.take(j).push(p) + s.skip(
            j,
        ));
    }
}

/// Inserts a pair into a vector sorted by key, after every pair whose key
/// is not greater.
fn insert_sorted(out: &mut Vec<(String, String)>, k: String, v: String)
    ensures
        pair_views(final(out)@) == insert_by_key(pair_views(old(out)@), (k@, v@)),
{
    let kc = chars_of(k.as_str());
    let ghost s = pair_views(out@);
    let mut j: usize = 0;
    let mut found = false;
    while j < out.len() && !found
        invariant
            j <= out@.len(),
            s == pair_views(out@),
            kc@ == k@,
            forall|i: int| 0 <= i < j ==> !key_lt(k@, #[trigger] s[i].0),
            found ==> j < out@.len() && key_lt(k@, s[j as int].0),
        decreases out.len() - j + (if found { 0int } else { 1int }),
    {
        let oc = chars_of(out[j].0.as_str());
        if key_less(&kc, &oc) {
            found = true;
        } else {
            j = j + 1;
        }
    }
    proof {
        lemma_insert_at(s, (k@, v@), j as int);
    }
    out.insert(j, (k, v));
    proof {
        assert(pair_views(out@) =~= s.take(j as int).push((k@, v@)) + s.skip(j as int));
    }
}

/// Computes the Last.fm API signature of a parameter list.
pub fn sign(params: &Vec<(String, String)>, secret: &str) -> (r: String)
    ensures
        r@ == signature(pair_views(params@), secret@),
{
    let ghost ps = pair_views(params@);
    let mut sorted: Vec<(String, String)> = Vec::new();
    let mut i: usize = 0;
    while i < params.len()
        invariant
            i <= params@.len(),
            ps == pair_views(params@),
            pair_views(sorted@) == sort_by_key(signed_part(ps.take(i as int))),
        decreases params.len() - i,
    {
        let k = &params[i].0;
        proof {
            assert(ps.take(i + 1).drop_last() == ps.take(i as int));
            assert(ps.take(i + 1).last() == ps[i as int]);
            assert(ps[i as int].0 == k@);
        }
        let ghost sp = signed_part(ps.take(i as int));
        if !str_eq(k.as_str(), "format") && !str_eq(k.as_str(), "callback") {
            proof {
                assert(signed_part(ps.take(i + 1)) == sp.push(ps[i as int]));
                assert(sp.push(ps[i as int]).drop_last() == sp);
            }
            insert_sorted(&mut sorted, k.clone(), params[i].1.clone());
        } else {
            proof {
                assert(signed_part(ps.take(i + 1)) == sp);
            }
        }
        i = i + 1;
    }
    assert(ps.take(params@.len() as int) == ps);
    let mut text: Vec<char> = Vec::new();
    let ghost ss = pair_views(sorted@);
    let mut j: usize = 0;
    while j < sorted.len()
        invariant
            j <= sorted@.len(),
            ss == pair_views(sorted@),
            text@ == concat_pairs(ss.take(j as int)),
        decreases sorted.len() - j,
    {
        extend_chars(&mut text, &chars_of(sorted[j].0.as_str()));
        extend_chars(&mut text, &chars_of(sorted[j].1.as_str()));
        proof {
            assert(ss.take(j + 1).drop_last() == ss.take(j as int));
            assert(ss.take(j + 1).last() == ss[j as int]);
        }
        j = j + 1;
    }
    assert(ss.take(sorted@.len() as int) == ss);
    extend_chars(&mut text, &chars_of(secret));
    let base = string_of(&text);
    string_of(&crate::digest::md5_hex_of_str(base.as_str()))
}

/// The first position of a key in a parameter list.
pub open spec fn key_position(ps: Seq<(Seq<char>, Seq<char>)>, k: Seq<char>) -> Option<int>
    decreases ps.len(),
{
    if ps.len() == 0 {
        None
    } else {
        match key_position(ps.drop_last(), k) {
            Some(i) => Some(i),
            None => if ps.last().0 == k {
                Some(ps.len() - 1)
            } else {
                None
            },
        }
    }
}

/// Setting a parameter: its value is replaced where the key is present,
/// and the pair is added at the end otherwise.
pub open spec fn set_param(ps: Seq<(Seq<char>, Seq<char>)>, k: Seq<char>, v: Seq<char>) -> Seq<
    (Seq<char>, Seq<char>),
> {
    match key_position(ps, k) {
        Some(i) => ps.update(i, (k, v)),
        None => ps.push((k, v)),
    }
}

fn find_key(ps: &Vec<(String, String)>, k: &str) -> (r: Option<usize>)
    ensures
        r matches Some(i) ==> i < ps@.len(),
        match r {
            Some(i) => key_position(pair_views(ps@), k@) == Some(i as int),
            None => key_position(pair_views(ps@), k@) is None,
        },
{
    let ghost v = pair_views(ps@);
    let mut i: usize = 0;
    while i < ps.len()
        invariant
            i <= ps@.len(),
            v == pair_views(ps@),
            key_position(v.take(i as int), k@) is None,
        decreases ps.len() - i,
    {
        proof {
            assert(v.take(i + 1).drop_last() == v.take(i as int));
        }
        if str_eq(ps[i].0.as_str(), k) {
            proof {
                lemma_key_position_prefix(v, k@, i as int + 1);
            }
            return Some(i);
        }
        i = i + 1;
    }
    assert(v.take(ps@.len() as int) == v);
    None
}

proof fn lemma_key_position_prefix(v: Seq<(Seq<char>, Seq<char>)>, k: Seq<char>, n: int)
    requires
        0 < n <= v.len(),
        key_position(v.take(n), k) is Some,
    ensures
        key_position(v, k) == key_position(v.take(n), k),
    decreases v.len() - n,
{
    if n < v.len() {
        assert(v.take(n + 1).drop_last() == v.take(n));
        lemma_key_position_prefix(v, k, n + 1);
    } else {
        assert(v.take(n) == v);
    }
}

pub(crate) fn set_param_in(ps: &mut Vec<(String, String)>, k: &str, v: String)
    ensures
        pair_views(final(ps)@) == set_param(pair_views(old(ps)@), k@, v@),
{
    let ghost before = pair_views(ps@);
    match find_key(ps, k) {
        Some(i) => {
            ps.set(i, (k.to_string(), v));
            proof {
                assert(pair_views(ps@) =~= before.update(i as int, (k@, v@)));
            }
        },
        None => {
            ps.push((k.to_string(), v));
            proof {
                assert(pair_views(ps@) =~= before.push((k@, v@)));
            }
        },
    }
}

/// The parameters of a signed call: the API key set, the signature of that
/// set computed with the secret, and the JSON format requested.
pub open spec fn signed_request(ps: Seq<(Seq<char>, Seq<char>)>, api_key: Seq<char>, secret: Seq<char>) -> Seq<
    (Seq<char>, Seq<char>),
> {
    let with_key = set_param(ps, "api_key"@, api_key);
    set_param(set_param(with_key, "api_sig"@, signature(with_key, secret)), "format"@, "json"@)
}

pub fn signed_params(params: &Vec<(String, String)>, api_key: &str, secret: &str) -> (r: Vec<
    (String, String),
>)
    ensures
        pair_views(r@) == signed_request(pair_views(params@), api_key@, secret@),
{
    let mut ps: Vec<(String, String)> = Vec::new();
    let mut i: usize = 0;
    while i < params.len()
        invariant
            i <= params@.len(),
            pair_views(ps@) == pair_views(params@).take(i as int),
        decreases params.len() - i,
    {
        let ghost prev = pair_views(ps@);
        let k = params[i].0.clone();
        let v = params[i].1.clone();
        ps.push((k, v));
        proof {
            assert(pair_views(ps@) =~= prev.push(pair_views(params@)[i as int]));
            assert(pair_views(params@).take(i + 1) =~= pair_views(params@).take(i as int).push(
                pair_views(params@)[i as int],
            ));
        }
        i = i + 1;
    }
    assert(pair_views(params@).take(params@.len() as int) == pair_views(params@));
    set_param_in(&mut ps, "api_key", api_key.to_string());
    let sig = sign(&ps, secret);
    set_param_in(&mut ps, "api_sig", sig);
    set_param_in(&mut ps, "format", "json".to_string());
    ps
}

/// Law: the signature ignores the `format` and `callback` parameters.
pub proof fn law_signature_ignores_format(
    ps: Seq<(Seq<char>, Seq<char>)>,
    k: Seq<char>,
    v: Seq<char>,
    secret: Seq<char>,
)
    requires
        k == "format"@ || k == "callback"@,
    ensures
        signature(ps.push((k, v)), secret) == signature(ps, secret),
{
    assert(ps.push((k, v)).drop_last() == ps);
}

/// Law: the keys of a signed list, sorted, come in non-decreasing order.
pub proof fn law_sorted_keys(ps: Seq<(Seq<char>, Seq<char>)>, i: int, j: int)
    requires
        0 <= i < j < sort_by_key(ps).len(),
    ensures
        !key_lt(sort_by_key(ps)[j].0, sort_by_key(ps)[i].0),
{
    lemma_sorted(ps);
}

pub open spec fn keys_sorted(s: Seq<(Seq<char>, Seq<char>)>) -> bool {
    forall|i: int, j: int| 0 <= i < j < s.len() ==> !key_lt(s[j].0, s[i].0)
}

proof fn lemma_key_lt_total(a: Seq<char>, b: Seq<char>)
    ensures
        !key_lt(a, b) ==> (key_lt(b, a) || a == b),
        key_lt(a, b) ==> !key_lt(b, a),
    decreases a.len(),
{
    if a.len() == 0 && b.len() == 0 {
        assert(a =~= b);
    }
    if a.len() > 0 && b.len() > 0 && a[0] == b[0] {
        lemma_key_lt_total(a.drop_first(), b.drop_first());
        if a.drop_first() == b.drop_first() {
            assert(a == seq![a[0]] + a.drop_first());
            assert(b == seq![b[0]] + b.drop_first());
        }
    }
}

proof fn lemma_key_lt_trans(a: Seq<char>, b: Seq<char>, c: Seq<char>)
    requires
        !key_lt(b, a),
        !key_lt(c, b),
    ensures
        !key_lt(c, a),
    decreases a.len(),
{
    if a.len() == 0 || b.len() == 0 || c.len() == 0 {
    } else if a[0] == b[0] && b[0] == c[0] {
        lemma_key_lt_trans(a.drop_first(), b.drop_first(), c.drop_first());
    } else {
        assert((a[0] as int) <= (b[0] as int));
        assert((b[0] as int) <= (c[0] as int));
    }
}

proof fn lemma_insert_sorted(s: Seq<(Seq<char>, Seq<char>)>, p: (Seq<char>, Seq<char>))
    requires
        keys_sorted(s),
    ensures
        keys_sorted(insert_by_key(s, p)),
        insert_by_key(s, p).len() == s.len() + 1,
        forall|x: int| 0 <= x < insert_by_key(s, p).len() ==> (insert_by_key(s, p)[x] == p || exists|y: int|
            0 <= y < s.len() && insert_by_key(s, p)[x] == s[y]),
    decreases s.len(),
{
    let r = insert_by_key(s, p);
    if s.len() == 0 {
    } else if key_lt(p.0, s[0].0) {
        assert forall|i: int, j: int| 0 <= i < j < r.len() implies !key_lt(r[j].0, r[i].0) by {
            if i == 0 {
                lemma_key_lt_total(p.0, s[0].0);
                if j > 1 {
                    lemma_key_lt_trans(p.0, s[0].0, s[j - 1].0);
                }
            }
        }
        assert forall|x: int| 0 <= x < r.len() implies (r[x] == p || exists|y: int|
            0 <= y < s.len() && r[x] == s[y]) by {
            if x > 0 {
                assert(r[x] == s[x - 1]);
            }
        }
    } else {
        let t = s.drop_first();
        assert(keys_sorted(t)) by {
            assert forall|i: int, j: int| 0 <= i < j < t.len() implies !key_lt(t[j].0, t[i].0) by {
                assert(t[i] == s[i + 1] && t[j] == s[j + 1]);
            }
        }
        lemma_insert_sorted(t, p);
        let q = insert_by_key(t, p);
        assert(r == seq![s[0]] + q);
        assert forall|x: int| 0 <= x < q.len() implies !key_lt(q[x].0, s[0].0) by {
            if q[x] == p {
                lemma_key_lt_total(p.0, s[0].0);
            } else {
                let y = choose|y: int| 0 <= y < t.len() && q[x] == t[y];
                assert(t[y] == s[y + 1]);
            }
        }
        assert forall|i: int, j: int| 0 <= i < j < r.len() implies !key_lt(r[j].0, r[i].0) by {
            if i == 0 {
                assert(r[j] == q[j - 1]);
            } else {
                assert(r[i] == q[i - 1] && r[j] == q[j - 1]);
            }
        }
        assert forall|x: int| 0 <= x < r.len() implies (r[x] == p || exists|y: int|
            0 <= y < s.len() && r[x] == s[y]) by {
            if x == 0 {
                assert(r[0] == s[0]);
            } else {
                assert(r[x] == q[x - 1]);
                if q[x - 1] != p {
                    let y = choose|y: int| 0 <= y < t.len() && q[x - 1] == t[y];
                    assert(t[y] == s[y + 1]);
                }
            }
        }
    }
}

proof fn lemma_sorted(ps: Seq<(Seq<char>, Seq<char>)>)
    ensures
        keys_sorted(sort_by_key(ps)),
    decreases ps.len(),
{
    if ps.len() > 0 {
        lemma_sorted(ps.drop_last());
        lemma_insert_sorted(sort_by_key(ps.drop_last()), ps.last());
    }
}

// ---------------------------------------------------------------------------
// Order of the parameters
// ---------------------------------------------------------------------------

/// No two pairs share a key.
pub open spec fn distinct_keys(s: Seq<(Seq<char>, Seq<char>)>) -> bool {
    forall|i: int, j: int| 0 <= i < j < s.len() ==> s[i].0 != s[j].0
}

proof fn lemma_key_lt_strict_trans(a: Seq<char>, b: Seq<char>, c: Seq<char>)
    requires
        key_lt(a, b),
        key_lt(b, c),
    ensures
        key_lt(a, c),
    decreases a.len(),
{
    if a.len() > 0 && b.len() > 0 && c.len() > 0 && a[0] == b[0] && b[0] == c[0] {
        lemma_key_lt_strict_trans(a.drop_first(), b.drop_first(), c.drop_first());
    }
}

/// Inserting two pairs with different keys gives the same list in either
/// order.
proof fn lemma_insert_commute(t: Seq<(Seq<char>, Seq<char>)>, p: (Seq<char>, Seq<char>), q: (Seq<char>, Seq<char>))
    requires
        p.0 != q.0,
    ensures
        insert_by_key(insert_by_key(t, p), q) == insert_by_key(insert_by_key(t, q), p),
    decreases t.len(),
{
    lemma_key_lt_total(p.0, q.0);
    if t.len() == 0 {
        let e = Seq::<(Seq<char>, Seq<char>)>::empty();
        assert(insert_by_key(t, p) == seq![p]);
        assert(insert_by_key(t, q) == seq![q]);
        assert(seq![p][0] == p && seq![p].drop_first() =~= e);
        assert(seq![q][0] == q && seq![q].drop_first() =~= e);
        assert(insert_by_key(e, q) == seq![q]);
        assert(insert_by_key(e, p) == seq![p]);
        if key_lt(q.0, p.0) {
            assert(insert_by_key(seq![p], q) == seq![q] + seq![p]);
            assert(insert_by_key(seq![q], p) == seq![seq![q][0]] + insert_by_key(e, p));
            assert(seq![seq![q][0]] + insert_by_key(e, p) =~= seq![q] + seq![p]);
        } else {
            assert(insert_by_key(seq![q], p) == seq![p] + seq![q]);
            assert(insert_by_key(seq![p], q) == seq![seq![p][0]] + insert_by_key(e, q));
            assert(seq![seq![p][0]] + insert_by_key(e, q) =~= seq![p] + seq![q]);
        }
    } else {
        let t0 = t[0];
        let t1 = t.drop_first();
        let pl = key_lt(p.0, t0.0);
        let ql = key_lt(q.0, t0.0);
        if pl && ql {
            let a = seq![p] + t;
            let b = seq![q] + t;
            assert(a[0] == p && a.drop_first() =~= t);
            assert(b[0] == q && b.drop_first() =~= t);
            if key_lt(q.0, p.0) {
                assert(insert_by_key(a, q) == seq![q] + a);
                assert(insert_by_key(b, p) == seq![b[0]] + insert_by_key(t, p));
                assert(insert_by_key(t, p) == seq![p] + t);
                assert(seq![q] + a =~= seq![q] + (seq![p] + t));
            } else {
                assert(insert_by_key(a, q) == seq![a[0]] + insert_by_key(t, q));
                assert(insert_by_key(t, q) == seq![q] + t);
                assert(insert_by_key(b, p) == seq![p] + b);
                assert(seq![p] + (seq![q] + t) =~= seq![p] + b);
            }
        } else if pl && !ql {
            lemma_key_lt_total(q.0, t0.0);
            if key_lt(q.0, p.0) {
                lemma_key_lt_strict_trans(q.0, p.0, t0.0);
            }
            let a = seq![p] + t;
            assert(a[0] == p && a.drop_first() =~= t);
            assert(insert_by_key(a, q) == seq![p] + insert_by_key(t, q));
            let b = insert_by_key(t, q);
            assert(b == seq![t0] + insert_by_key(t1, q));
            assert(b[0] == t0);
            assert(insert_by_key(b, p) == seq![p] + b);
        } else if !pl && ql {
            lemma_key_lt_total(p.0, t0.0);
            if key_lt(p.0, q.0) {
                lemma_key_lt_strict_trans(p.0, q.0, t0.0);
            }
            let b = seq![q] + t;
            assert(b[0] == q && b.drop_first() =~= t);
            assert(insert_by_key(b, p) == seq![q] + insert_by_key(t, p));
            let a = insert_by_key(t, p);
            assert(a == seq![t0] + insert_by_key(t1, p));
            assert(a[0] == t0);
            assert(insert_by_key(a, q) == seq![q] + a);
        } else {
            lemma_insert_commute(t1, p, q);
            let a = insert_by_key(t, p);
            let b = insert_by_key(t, q);
            assert(a == seq![t0] + insert_by_key(t1, p));
            assert(b == seq![t0] + insert_by_key(t1, q));
            assert(a[0] == t0 && a.drop_first() =~= insert_by_key(t1, p));
            assert(b[0] == t0 && b.drop_first() =~= insert_by_key(t1, q));
        }
    }
}

/// Sorting a list with distinct keys is the same as sorting it without
/// any one of its pairs and inserting that pair last.
proof fn lemma_sort_remove(s: Seq<(Seq<char>, Seq<char>)>, k: int)
    requires
        distinct_keys(s),
        0 <= k < s.len(),
    ensures
        sort_by_key(s) == insert_by_key(sort_by_key(s.remove(k)), s[k]),
    decreases s.len(),
{
    if k == s.len() - 1 {
        assert(s.remove(k) =~= s.drop_last());
    } else {
        let d = s.drop_last();
        assert(distinct_keys(d)) by {
            assert forall|i: int, j: int| 0 <= i < j < d.len() implies d[i].0 != d[j].0 by {
                assert(d[i] == s[i] && d[j] == s[j]);
            }
        }
        assert(d[k] == s[k]);
        lemma_sort_remove(d, k);
        lemma_insert_commute(sort_by_key(d.remove(k)), s[k], s.last());
        let r = d.remove(k).push(s.last());
        assert(r =~= s.remove(k));
        assert(r.drop_last() =~= d.remove(k));
        assert(r.last() == s.last());
    }
}

/// Two lists that hold the same pairs, each with distinct keys, sort to
/// the same list.
proof fn lemma_sort_perm(ps: Seq<(Seq<char>, Seq<char>)>, qs: Seq<(Seq<char>, Seq<char>)>)
    requires
        ps.to_multiset() == qs.to_multiset(),
        distinct_keys(ps),
        distinct_keys(qs),
    ensures
        sort_by_key(ps) == sort_by_key(qs),
    decreases ps.len(),
{
    broadcast use vstd::seq_lib::group_to_multiset_ensures;

    if ps.len() == 0 {
        assert(ps.to_multiset().len() == ps.len());
        assert(qs.to_multiset().len() == qs.len());
        assert(qs =~= ps);
    } else {
        let x = ps.last();
        let d = ps.drop_last();
        assert(ps =~= d.push(x));
        assert(ps.to_multiset().count(x) > 0);
        assert(qs.contains(x));
        let k = choose|k: int| 0 <= k < qs.len() && qs[k] == x;
        let r = qs.remove(k);
        assert(r.to_multiset() =~= qs.to_multiset().remove(x));
        assert(d.to_multiset() =~= ps.to_multiset().remove(x));
        assert(distinct_keys(d)) by {
            assert forall|i: int, j: int| 0 <= i < j < d.len() implies d[i].0 != d[j].0 by {
                assert(d[i] == ps[i] && d[j] == ps[j]);
            }
        }
        assert(distinct_keys(r)) by {
            assert forall|i: int, j: int| 0 <= i < j < r.len() implies r[i].0 != r[j].0 by {
                let i2 = if i < k { i } else { i + 1 };
                let j2 = if j < k { j } else { j + 1 };
                assert(r[i] == qs[i2] && r[j] == qs[j2]);
            }
        }
        lemma_sort_perm(d, r);
        lemma_sort_remove(qs, k);
    }
}

pub open spec fn unsigned_key(k: Seq<char>) -> bool {
    k == "format"@ || k == "callback"@
}

proof fn lemma_signed_count(ps: Seq<(Seq<char>, Seq<char>)>, x: (Seq<char>, Seq<char>))
    ensures
        signed_part(ps).to_multiset().count(x) == if unsigned_key(x.0) {
            0
        } else {
            ps.to_multiset().count(x)
        },
    decreases ps.len(),
{
    broadcast use vstd::seq_lib::group_to_multiset_ensures;

    if ps.len() == 0 {
        assert(signed_part(ps) =~= Seq::<(Seq<char>, Seq<char>)>::empty());
        assert(ps.to_multiset().len() == 0);
        assert(signed_part(ps).to_multiset().len() == 0);
    } else {
        let d = ps.drop_last();
        assert(ps =~= d.push(ps.last()));
        lemma_signed_count(d, x);
    }
}

proof fn lemma_signed_distinct(ps: Seq<(Seq<char>, Seq<char>)>)
    requires
        distinct_keys(ps),
    ensures
        distinct_keys(signed_part(ps)),
        forall|i: int| 0 <= i < signed_part(ps).len() ==> exists|j: int| 0 <= j < ps.len() && #[trigger] signed_part(ps)[i] == ps[j],
    decreases ps.len(),
{
    if ps.len() > 0 {
        let d = ps.drop_last();
        assert(distinct_keys(d)) by {
            assert forall|i: int, j: int| 0 <= i < j < d.len() implies d[i].0 != d[j].0 by {
                assert(d[i] == ps[i] && d[j] == ps[j]);
            }
        }
        lemma_signed_distinct(d);
        let sd = signed_part(d);
        assert forall|i: int| 0 <= i < sd.len() implies exists|j: int| 0 <= j < ps.len() && #[trigger] sd[i] == ps[j] by {
            let j = choose|j: int| 0 <= j < d.len() && sd[i] == d[j];
            assert(ps[j] == d[j]);
        }
        if !unsigned_key(ps.last().0) {
            let sp = sd.push(ps.last());
            assert forall|i: int, j: int| 0 <= i < j < sp.len() implies sp[i].0 != sp[j].0 by {
                if j == sp.len() - 1 {
                    let w = choose|w: int| 0 <= w < ps.len() && sd[i] == ps[w];
                    assert(w < d.len()) by {
                        let w2 = choose|w2: int| 0 <= w2 < d.len() && sd[i] == d[w2];
                        assert(ps[w2] == d[w2]);
                        if w != w2 {
                            assert(ps[w].0 == ps[w2].0);
                        }
                    }
                    assert(ps[w].0 != ps[ps.len() - 1].0);
                } else {
                    assert(sp[i] == sd[i] && sp[j] == sd[j]);
                }
            }
            assert forall|i: int| 0 <= i < sp.len() implies exists|j: int| 0 <= j < ps.len() && #[trigger] sp[i] == ps[j] by {
                if i == sp.len() - 1 {
                    assert(sp[i] == ps[ps.len() - 1]);
                } else {
                    assert(sp[i] == sd[i]);
                }
            }
        }
    }
}

/// Law: the signature does not depend on the order in which the
/// parameters are given: two lists that hold the same pairs, each with its
/// keys distinct, are signed alike.
pub proof fn law_signature_order_free(
    ps: Seq<(Seq<char>, Seq<char>)>,
    qs: Seq<(Seq<char>, Seq<char>)>,
    secret: Seq<char>,
)
    requires
        ps.to_multiset() == qs.to_multiset(),
        distinct_keys(ps),
        distinct_keys(qs),
    ensures
        signature(ps, secret) == signature(qs, secret),
{
    assert(signed_part(ps).to_multiset() =~= signed_part(qs).to_multiset()) by {
        assert forall|x: (Seq<char>, Seq<char>)| signed_part(ps).to_multiset().count(x)
            == signed_part(qs).to_multiset().count(x) by {
            lemma_signed_count(ps, x);
            lemma_signed_count(qs, x);
        }
    }
    lemma_signed_distinct(ps);
    lemma_signed_distinct(qs);
    lemma_sort_perm(signed_part(ps), signed_part(qs));
}

// ---------------------------------------------------------------------------
// Credentials and settings
// ---------------------------------------------------------------------------

/// The value of a setting, empty when it is absent.
pub open spec fn setting_value(s: Option<String>) -> Seq<char> {
    match s {
        Some(v) => v@,
        None => Seq::empty(),
    }
}

fn or_empty(s: &Option<String>) -> (r: String)
    ensures
        r@ == setting_value(*s),
{
    match s {
        Some(v) => v.clone(),
        None => String::new(),
    }
}

/// The API key and shared secret, both required.
pub fn require_credentials(api_key: &Option<String>, secret: &Option<String>) -> (r: Result<
    (String, String),
    String,
>)
    ensures
        r is Ok <==> (setting_value(*api_key).len() > 0 && setting_value(*secret).len() > 0),
        r matches Ok((k, s)) ==> k@ == setting_value(*api_key) && s@ == setting_value(*secret),
        r matches Err(e) ==> e@ == "Last.fm API key and shared secret are required"@,
{
    let k = or_empty(api_key);
    let s = or_empty(secret);
    if k.as_str().is_empty() || s.as_str().is_empty() {
        return Err("Last.fm API key and shared secret are required".to_string());
    }
    Ok((k, s))
}

/// The API key, shared secret and session key, each empty when unset.
pub fn read_session_credentials(api_key: &Option<String>, secret: &Option<String>, session_key: &Option<
    String,
>) -> (r: (String, String, String))
    ensures
        r.0@ == setting_value(*api_key),
        r.1@ == setting_value(*secret),
        r.2@ == setting_value(*session_key),
{
    (or_empty(api_key), or_empty(secret), or_empty(session_key))
}

/// Scrobbling and now-playing updates need all three credentials; without
/// them the call is skipped silently.
pub fn scrobbling_enabled(api_key: &str, secret: &str, session_key: &str) -> (r: bool)
    ensures
        r == (api_key@.len() > 0 && secret@.len() > 0 && session_key@.len() > 0),
{
    !session_key.is_empty() && !api_key.is_empty() && !secret.is_empty()
}

/// The fields of a scrobble: artist, track and album trimmed (no album
/// reads as empty), and the timestamp only when it is positive.
pub struct ScrobbleFields {
    pub artist: String,
    pub track: String,
    pub album: String,
    pub timestamp: Option<u64>,
}

pub fn build_scrobble(artist: &str, track: &str, album: &Option<String>, timestamp: Option<i64>) -> (r:
    ScrobbleFields)
    ensures
        r.artist@ == trim(artist@),
        r.track@ == trim(track@),
        r.album@ == trim(setting_value(*album)),
        r.timestamp == (match timestamp {
            Some(t) => if t > 0 {
                Some(t as u64)
            } else {
                None
            },
            None => None,
        }),
{
    let album = or_empty(album);
    let ts = match timestamp {
        Some(t) => if t > 0 {
            Some(t as u64)
        } else {
            None
        },
        None => None,
    };
    ScrobbleFields {
        artist: trim_str(artist),
        track: trim_str(track),
        album: trim_str(album.as_str()),
        timestamp: ts,
    }
}

// ---------------------------------------------------------------------------
// Authentication
// ---------------------------------------------------------------------------

/// A request token and the page where the user grants it.
pub struct LfmAuthToken {
    pub token: String,
    pub auth_url: String,
}

/// The user a session was granted for.
pub struct LfmSession {
    pub username: String,
}

pub open spec fn auth_url_spec(api_key: Seq<char>, token: Seq<char>) -> Seq<char> {
    "https://www.last.fm/api/auth/?api_key="@ + api_key + "&token="@ + token
}

/// The answer to the token request: the token with its authorisation page,
/// or an error when Last.fm sent no token.
pub fn auth_token_result(api_key: &str, token: Option<String>) -> (r: Result<LfmAuthToken, String>)
    ensures
        r is Ok <==> token is Some,
        r matches Ok(t) ==> t.token@ == token->0@ && t.auth_url@ == auth_url_spec(
            api_key@,
            token->0@,
        ),
        r matches Err(e) ==> e@ == "Failed to get auth token"@,
{
    match token {
        None => Err("Failed to get auth token".to_string()),
        Some(t) => {
            let mut v = chars_of("https://www.last.fm/api/auth/?api_key=");
            extend_chars(&mut v, &chars_of(api_key));
            extend_chars(&mut v, &chars_of("&token="));
            extend_chars(&mut v, &chars_of(t.as_str()));
            Ok(LfmAuthToken { token: t, auth_url: string_of(&v) })
        },
    }
}

/// The answer to the session request: the user name, or an error when no
/// session key came back.
pub fn session_result(username: String, session_key: &str) -> (r: Result<LfmSession, String>)
    ensures
        r is Ok <==> session_key@.len() > 0,
        r matches Ok(s) ==> s.username@ == username@,
        r matches Err(e) ==> e@ == "No session key returned from Last.fm"@,
{
    if session_key.is_empty() {
        Err("No session key returned from Last.fm".to_string())
    } else {
        Ok(LfmSession { username })
    }
}

/// The error reported for a failed call: the error code as Last.fm sent
/// it and its message, `"Last.fm error"` when there is none.
pub fn api_error_message(code: &str, message: &Option<String>) -> (r: String)
    ensures
        r@ == "Last.fm error "@ + code@ + ": "@ + (match message {
            Some(m) => m@,
            None => "Last.fm error"@,
        }),
{
    let mut v = chars_of("Last.fm error ");
    extend_chars(&mut v, &chars_of(code));
    extend_chars(&mut v, &chars_of(": "));
    match message {
        Some(m) => extend_chars(&mut v, &chars_of(m.as_str())),
        None => extend_chars(&mut v, &chars_of("Last.fm error")),
    }
    string_of(&v)
}

// ---------------------------------------------------------------------------
// Status and taste
// ---------------------------------------------------------------------------

/// Whether a session is stored, and for which user.
pub struct LfmStatus {
    pub connected: bool,
    pub username: String,
}

pub const SESSION_KEY_SETTING: &'static str = "LASTFM_SESSION_KEY";

pub const USERNAME_SETTING: &'static str = "LASTFM_USERNAME";

/// The value stored under `key`, empty when there is none.
pub open spec fn stored(store: Map<Seq<char>, Seq<char>>, key: Seq<char>) -> Seq<char> {
    if store.dom().contains(key) {
        store[key]
    } else {
        Seq::empty()
    }
}

/// The settings after writing `ws` in order, each write replacing the value
/// of its key.
pub open spec fn upsert_all(store: Map<Seq<char>, Seq<char>>, ws: Seq<(Seq<char>, Seq<char>)>) -> Map<
    Seq<char>,
    Seq<char>,
>
    decreases ws.len(),
{
    if ws.len() == 0 {
        store
    } else {
        upsert_all(store, ws.drop_last()).insert(ws.last().0, ws.last().1)
    }
}

/// The status `lfm_status` reports from the stored settings: connected when
/// a session key is stored, and the stored user name.
pub open spec fn status_in(store: Map<Seq<char>, Seq<char>>) -> (bool, Seq<char>) {
    (stored(store, SESSION_KEY_SETTING@).len() > 0, stored(store, USERNAME_SETTING@))
}

pub open spec fn disconnect_writes_spec() -> Seq<(Seq<char>, Seq<char>)> {
    seq![(SESSION_KEY_SETTING@, Seq::empty()), (USERNAME_SETTING@, Seq::empty())]
}

pub open spec fn session_writes_spec(username: Seq<char>, session_key: Seq<char>) -> Seq<(Seq<char>, Seq<char>)> {
    seq![(SESSION_KEY_SETTING@, session_key), (USERNAME_SETTING@, username)]
}

/// The settings a disconnect writes: the session key and user name,
/// emptied.
pub fn disconnect_writes() -> (r: Vec<(String, String)>)
    ensures
        pair_views(r@) == disconnect_writes_spec(),
{
    let mut v: Vec<(String, String)> = Vec::new();
    v.push((SESSION_KEY_SETTING.to_string(), String::new()));
    v.push((USERNAME_SETTING.to_string(), String::new()));
    assert(pair_views(v@) =~= disconnect_writes_spec());
    v
}

/// The settings a completed sign-in writes: the session key, then the user
/// name.
pub fn session_writes(session: &LfmSession, session_key: &str) -> (r: Vec<(String, String)>)
    ensures
        pair_views(r@) == session_writes_spec(session.username@, session_key@),
{
    let mut v: Vec<(String, String)> = Vec::new();
    v.push((SESSION_KEY_SETTING.to_string(), session_key.to_string()));
    v.push((USERNAME_SETTING.to_string(), session.username.clone()));
    assert(pair_views(v@) =~= session_writes_spec(session.username@, session_key@));
    v
}

/// Law: the status read after a disconnect is "not connected" with no user
/// name, and after a completed sign-in (whose session key is never empty)
/// it is "connected" as the signed-in user, whatever the settings held
/// before.
pub proof fn law_status_after_writes(store: Map<Seq<char>, Seq<char>>, username: Seq<char>, session_key: Seq<char>)
    requires
        session_key.len() > 0,
    ensures
        status_in(upsert_all(store, disconnect_writes_spec())) == (false, Seq::<char>::empty()),
        status_in(upsert_all(store, session_writes_spec(username, session_key))) == (true, username),
{
    reveal_strlit("LASTFM_SESSION_KEY");
    reveal_strlit("LASTFM_USERNAME");
    let k = SESSION_KEY_SETTING@;
    let u = USERNAME_SETTING@;
    assert(k != u) by {
        assert(k[8] != u[8]);
    }
    lemma_two_upserts(store, k, Seq::empty(), u, Seq::empty());
    lemma_two_upserts(store, k, session_key, u, username);
}

proof fn lemma_two_upserts(store: Map<Seq<char>, Seq<char>>, k1: Seq<char>, v1: Seq<char>, k2: Seq<char>, v2: Seq<char>)
    ensures
        upsert_all(store, seq![(k1, v1), (k2, v2)]) == store.insert(k1, v1).insert(k2, v2),
{
    let ws = seq![(k1, v1), (k2, v2)];
    assert(ws.drop_last() =~= seq![(k1, v1)]);
    assert(seq![(k1, v1)].drop_last() =~= Seq::<(Seq<char>, Seq<char>)>::empty());
    assert(upsert_all(store, Seq::<(Seq<char>, Seq<char>)>::empty()) == store);
    assert(seq![(k1, v1)].last() == (k1, v1));
    assert(upsert_all(store, seq![(k1, v1)]) == store.insert(k1, v1));
    assert(ws.last() == (k2, v2));
}

/// Whether Last.fm is connected, and as whom, from the stored session key
/// and user name.
pub fn lfm_status(session_key: &Option<String>, username: &Option<String>) -> (r: LfmStatus)
    ensures
        r.connected == (setting_value(*session_key).len() > 0),
        r.username@ == setting_value(*username),
{
    let connected = match session_key {
        Some(v) => !v.as_str().is_empty(),
        None => false,
    };
    LfmStatus { connected, username: or_empty(username) }
}

/// The user's favourite artists, and whether Last.fm is connected.
pub struct UserTaste {
    pub connected: bool,
    pub username: String,
    pub artists: Vec<String>,
}

/// The artists of the user's top tracks: trimmed, blank names skipped, each
/// listed once in order of first appearance, at most 50.  The result after
/// the first `n` tracks.
pub open spec fn taste_after(names: Seq<Seq<char>>, n: int) -> Seq<Seq<char>>
    decreases n,
{
    if n <= 0 {
        Seq::empty()
    } else {
        let prev = taste_after(names, n - 1);
        let a = trim(names[n - 1]);
        if prev.len() >= TASTE_ARTIST_LIMIT || a.len() == 0 || prev.contains(a) {
            prev
        } else {
            prev.push(a)
        }
    }
}

pub fn taste_artists(names: &Vec<String>) -> (r: Vec<String>)
    ensures
        crate::library::string_seq_view(r@) == taste_after(
            crate::library::string_seq_view(names@),
            names@.len() as int,
        ),
{
    let ghost ns = crate::library::string_seq_view(names@);
    let mut artists: Vec<String> = Vec::new();
    let mut i: usize = 0;
    while i < names.len()
        invariant
            i <= names@.len(),
            ns == crate::library::string_seq_view(names@),
            crate::library::string_seq_view(artists@) == taste_after(ns, i as int),
        decreases names.len() - i,
    {
        let a = trim_str(names[i].as_str());
        proof {
            assert(ns[i as int] == names@[i as int]@);
        }
        if artists.len() < TASTE_ARTIST_LIMIT && !a.as_str().is_empty() {
            let mut seen = false;
            let mut j: usize = 0;
            let ghost cur = crate::library::string_seq_view(artists@);
            while j < artists.len()
                invariant
                    j <= artists@.len(),
                    cur == crate::library::string_seq_view(artists@),
                    seen <==> exists|k: int| 0 <= k < j && cur[k] == a@,
                decreases artists.len() - j,
            {
                proof {
                    assert(cur[j as int] == artists@[j as int]@);
                }
                if artists[j] == a {
                    seen = true;
                }
                j = j + 1;
            }
            proof {
                if seen {
                    let k = choose|k: int| 0 <= k < j && cur[k] == a@;
                    assert(cur.contains(a@));
                } else {
                    assert(!cur.contains(a@));
                }
            }
            if !seen {
                artists.push(a);
                proof {
                    assert(crate::library::string_seq_view(artists@) =~= cur.push(
                        trim(ns[i as int]),
                    ));
                }
            }
        }
        i = i + 1;
    }
    artists
}

/// Law: a taste profile never lists more than 50 artists, never a blank
/// one, and never the same artist twice.
pub proof fn law_taste_bounded_distinct(names: Seq<Seq<char>>, n: int)
    requires
        0 <= n <= names.len(),
    ensures
        taste_after(names, n).len() <= TASTE_ARTIST_LIMIT,
        forall|i: int| 0 <= i < taste_after(names, n).len() ==> taste_after(names, n)[i].len() > 0,
        forall|i: int, j: int|
            0 <= i < j < taste_after(names, n).len() ==> taste_after(names, n)[i] != taste_after(
                names,
                n,
            )[j],
    decreases n,
{
    if n > 0 {
        law_taste_bounded_distinct(names, n - 1);
        let prev = taste_after(names, n - 1);
        let a = trim(names[n - 1]);
        if !(prev.len() >= TASTE_ARTIST_LIMIT || a.len() == 0 || prev.contains(a)) {
            let r = prev.push(a);
            assert forall|i: int, j: int| 0 <= i < j < r.len() implies r[i] != r[j] by {
                if j == prev.len() {
                    assert(r[i] == prev[i]);
                    if r[i] == a {
                        assert(prev.contains(a));
                    }
                }
            }
        }
    }
}

/// Whether the taste profile can be fetched: both the session key and the
/// API key are set.
pub fn taste_connected(api_key: &str, session_key: &str) -> (r: bool)
    ensures
        r == (api_key@.len() > 0 && session_key@.len() > 0),
{
    !api_key.is_empty() && !session_key.is_empty()
}

/// The taste profile: not connected (see `taste_connected`) it lists no
/// artists; when the top tracks could not be read (`None`) it is connected
/// with no artists.
pub fn user_taste(credentials_ok: bool, username: String, top_track_artists: Option<Vec<String>>) -> (r:
    UserTaste)
    ensures
        r.connected == credentials_ok,
        r.username@ == username@,
        !credentials_ok ==> r.artists@.len() == 0,
        credentials_ok ==> crate::library::string_seq_view(r.artists@) == (match top_track_artists {
            Some(ns) => taste_after(
                crate::library::string_seq_view(ns@),
                ns@.len() as int,
            ),
            None => Seq::empty(),
        }),
{
    if !credentials_ok {
        return UserTaste { connected: false, username, artists: Vec::new() };
    }
    match top_track_artists {
        Some(ns) => UserTaste { connected: true, username, artists: taste_artists(&ns) },
        None => {
            let artists: Vec<String> = Vec::new();
            proof {
                assert(crate::library::string_seq_view(artists@) =~= Seq::<Seq<char>>::empty());
            }
            UserTaste { connected: true, username, artists }
        },
    }
}

// ---------------------------------------------------------------------------
// Replies
// ---------------------------------------------------------------------------

/// The verdict on a Last.fm reply text: the parse error; the reported error
/// (its code written as JSON, and its message) when it has an `error`
/// member; else fine.
pub fn lastfm_reply(text: &str) -> (r: Result<(), String>)
    ensures
        match json_error_of(text@) {
            Some(m) => r matches Err(e) && e@ == m,
            None => match json_text_at(text@, "/error"@) {
                Some(code) => r matches Err(e) && e@ == "Last.fm error "@ + code + ": "@ + (match json_str_at(
                    text@,
                    "/message"@,
                ) {
                    Some(m) => m,
                    None => "Last.fm error"@,
                }),
                None => r is Ok,
            },
        },
{
    json_syntax(text)?;
    match json_text(text, "/error") {
        Some(code) => Err(api_error_message(code.as_str(), &json_str(text, "/message"))),
        None => Ok(()),
    }
}

/// The reply text to `auth.getToken`: the token with its authorisation page
/// (see `auth_token_result`), or the parse error.
pub fn lastfm_token(api_key: &str, text: &str) -> (r: Result<LfmAuthToken, String>)
    ensures
        match json_error_of(text@) {
            Some(m) => r matches Err(e) && e@ == m,
            None => match json_str_at(text@, "/token"@) {
                Some(t) => r matches Ok(a) && a.token@ == t && a.auth_url@ == auth_url_spec(api_key@, t),
                None => r matches Err(e) && e@ == "Failed to get auth token"@,
            },
        },
{
    json_syntax(text)?;
    auth_token_result(api_key, json_str(text, "/token"))
}

/// The reply text to `auth.getSession`: the session's user name with its
/// key kept aside for storage (see `session_result`); the parse error, or
/// an error when the reply holds no session.
pub fn lastfm_session(text: &str) -> (r: Result<(LfmSession, String), String>)
    ensures
        match json_error_of(text@) {
            Some(m) => r matches Err(e) && e@ == m,
            None => {
                let name = str_or_empty(json_str_at(text@, "/session/name"@));
                let key = str_or_empty(json_str_at(text@, "/session/key"@));
                if json_null_at(text@, "/session"@) is None {
                    r matches Err(e) && e@ == "No session in Last.fm response"@
                } else if key.len() > 0 {
                    r matches Ok(x) && x.0.username@ == name && x.1@ == key
                } else {
                    r matches Err(e) && e@ == "No session key returned from Last.fm"@
                }
            },
        },
{
    json_syntax(text)?;
    if json_null(text, "/session").is_none() {
        return Err("No session in Last.fm response".to_string());
    }
    let name = string_or_empty(json_str(text, "/session/name"));
    let key = string_or_empty(json_str(text, "/session/key"));
    let result = session_result(name, key.as_str())?;
    Ok((result, key))
}

} // verus!
