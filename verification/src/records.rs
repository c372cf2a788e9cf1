//! The persisted record format.
//!
//! Secret material is persisted as a self-describing textual object — a
//! compact JSON object whose byte-sequence fields are arrays of decimal
//! numbers. The identity record carries `public_key`,
//! `encrypted_private_key` and `nonce`; a peer record carries
//! `encrypted_key` and `nonce`. `spec_identity_record` / `spec_peer_record`
//! define the encoding, `spec_parse_identity` / `spec_parse_peer` the exact
//! form the core accepts back, and the round-trip lemmas state that every
//! record the core writes is read back unchanged.

use vstd::prelude::*;

verus! {

use vstd::arithmetic::div_mod::lemma_fundamental_div_mod;
use vstd::arithmetic::div_mod::lemma_div_denominator;

/// The decimal digits of a byte value, without leading zeroes.
pub open spec fn dec_of(n: u8) -> Seq<u8> {
    let v = n as int;
    if v < 10 {
        seq![(48 + v) as u8]
    } else if v < 100 {
        seq![(48 + v / 10) as u8, (48 + v % 10) as u8]
    } else {
        seq![(48 + v / 100) as u8, (48 + (v / 10) % 10) as u8, (48 + v % 10) as u8]
    }
}

/// The comma-separated decimal items of a byte array.
pub open spec fn arr_items(s: Seq<u8>) -> Seq<u8>
    decreases s.len(),
{
    if s.len() == 0 {
        Seq::empty()
    } else if s.len() == 1 {
        dec_of(s[0])
    } else {
        dec_of(s[0]) + seq![44u8] + arr_items(s.drop_first())
    }
}

/// A byte array as a JSON array of decimal numbers.
pub open spec fn json_arr(s: Seq<u8>) -> Seq<u8> {
    seq![91u8] + arr_items(s) + seq![93u8]
}

pub open spec fn ident_prefix() -> Seq<u8> {
    seq![123u8, 34u8, 112u8, 117u8, 98u8, 108u8, 105u8, 99u8, 95u8, 107u8, 101u8, 121u8, 34u8, 58u8]
}

pub open spec fn encpriv_label() -> Seq<u8> {
    seq![44u8, 34u8, 101u8, 110u8, 99u8, 114u8, 121u8, 112u8, 116u8, 101u8, 100u8, 95u8, 112u8,
        114u8, 105u8, 118u8, 97u8, 116u8, 101u8, 95u8, 107u8, 101u8, 121u8, 34u8, 58u8]
}

pub open spec fn peer_prefix() -> Seq<u8> {
    seq![123u8, 34u8, 101u8, 110u8, 99u8, 114u8, 121u8, 112u8, 116u8, 101u8, 100u8, 95u8, 107u8,
        101u8, 121u8, 34u8, 58u8]
}

pub open spec fn nonce_label() -> Seq<u8> {
    seq![44u8, 34u8, 110u8, 111u8, 110u8, 99u8, 101u8, 34u8, 58u8]
}

/// The persisted identity record for public bytes, wrapped private bytes and
/// the wrapping nonce.
pub open spec fn spec_identity_record(pk: Seq<u8>, ct: Seq<u8>, nonce: Seq<u8>) -> Seq<u8> {
    ident_prefix() + json_arr(pk) + encpriv_label() + json_arr(ct) + nonce_label() + json_arr(nonce)
        + seq![125u8]
}

/// The persisted record for one peer's wrapped shared key and nonce.
pub open spec fn spec_peer_record(ct: Seq<u8>, nonce: Seq<u8>) -> Seq<u8> {
    peer_prefix() + json_arr(ct) + nonce_label() + json_arr(nonce) + seq![125u8]
}

pub open spec fn is_digit(c: u8) -> bool {
    48 <= c && c <= 57
}

pub open spec fn dval(c: u8) -> int {
    c as int - 48
}

/// Parses one decimal number (up to three digits, no leading zeroes, at most
/// 255) at position `i`; yields the value and the next position.
pub open spec fn parse_num(b: Seq<u8>, i: int) -> Option<(u8, int)> {
    if 0 <= i && i < b.len() && is_digit(b[i]) {
        if b[i] == 48 {
            Some((0u8, i + 1))
        } else if i + 1 < b.len() && is_digit(b[i + 1]) {
            if i + 2 < b.len() && is_digit(b[i + 2]) {
                let v = dval(b[i]) * 100 + dval(b[i + 1]) * 10 + dval(b[i + 2]);
                if v <= 255 {
                    Some((v as u8, i + 3))
                } else {
                    None
                }
            } else {
                Some(((dval(b[i]) * 10 + dval(b[i + 1])) as u8, i + 2))
            }
        } else {
            Some((dval(b[i]) as u8, i + 1))
        }
    } else {
        None
    }
}

/// Parses the items of a non-empty array up to and including the closing
/// bracket, starting where the first item begins.
pub open spec fn parse_arr_rest(b: Seq<u8>, i: int) -> Option<(Seq<u8>, int)>
    decreases b.len() - i,
{
    match parse_num(b, i) {
        None => None,
        Some((v, j)) => if i < j && j <= b.len() {
            if j < b.len() && b[j] == 44 {
                match parse_arr_rest(b, j + 1) {
                    None => None,
                    Some((rest, k)) => Some((seq![v] + rest, k)),
                }
            } else if j < b.len() && b[j] == 93 {
                Some((seq![v], j + 1))
            } else {
                None
            }
        } else {
            None
        },
    }
}

/// Parses a complete JSON array of byte values at position `i`.
pub open spec fn parse_arr(b: Seq<u8>, i: int) -> Option<(Seq<u8>, int)> {
    if 0 <= i && i < b.len() && b[i] == 91 {
        if i + 1 < b.len() && b[i + 1] == 93 {
            Some((Seq::empty(), i + 2))
        } else {
            parse_arr_rest(b, i + 1)
        }
    } else {
        None
    }
}

/// The exact identity records the core accepts: the canonical encoding and
/// nothing else.
pub open spec fn spec_parse_identity(b: Seq<u8>) -> Option<(Seq<u8>, Seq<u8>, Seq<u8>)> {
    let p = ident_prefix();
    if p.len() <= b.len() && b.subrange(0, p.len() as int) == p {
        match parse_arr(b, p.len() as int) {
            None => None,
            Some((pk, i)) => {
                let m = encpriv_label();
                if i + m.len() <= b.len() && b.subrange(i, i + m.len()) == m {
                    match parse_arr(b, i + m.len()) {
                        None => None,
                        Some((ct, j)) => {
                            let q = nonce_label();
                            if j + q.len() <= b.len() && b.subrange(j, j + q.len()) == q {
                                match parse_arr(b, j + q.len()) {
                                    None => None,
                                    Some((nonce, k)) => if k + 1 == b.len() && b[k] == 125 {
                                        Some((pk, ct, nonce))
                                    } else {
                                        None
                                    },
                                }
                            } else {
                                None
                            }
                        },
                    }
                } else {
                    None
                }
            },
        }
    } else {
        None
    }
}

/// The exact peer records the core accepts.
pub open spec fn spec_parse_peer(b: Seq<u8>) -> Option<(Seq<u8>, Seq<u8>)> {
    let p = peer_prefix();
    if p.len() <= b.len() && b.subrange(0, p.len() as int) == p {
        match parse_arr(b, p.len() as int) {
            None => None,
            Some((ct, i)) => {
                let q = nonce_label();
                if i + q.len() <= b.len() && b.subrange(i, i + q.len()) == q {
                    match parse_arr(b, i + q.len()) {
                        None => None,
                        Some((nonce, j)) => if j + 1 == b.len() && b[j] == 125 {
                            Some((ct, nonce))
                        } else {
                            None
                        },
                    }
                } else {
                    None
                }
            },
        }
    } else {
        None
    }
}

proof fn lemma_dec_of_digits(n: u8)
    ensures
        1 <= dec_of(n).len() <= 3,
        forall|k: int| 0 <= k < dec_of(n).len() ==> is_digit(#[trigger] dec_of(n)[k]),
        dec_of(n)[0] == 48 <==> n == 0,
{
    let v = n as int;
    if v < 10 {
    } else if v < 100 {
        lemma_fundamental_div_mod(v, 10);
        assert(1 <= v / 10 < 10);
        assert(0 <= v % 10 < 10);
    } else {
        lemma_fundamental_div_mod(v, 10);
        lemma_fundamental_div_mod(v / 10, 10);
        lemma_div_denominator(v, 10, 10);
        assert(1 <= v / 100 < 10);
        assert(0 <= (v / 10) % 10 < 10);
        assert(0 <= v % 10 < 10);
    }
}

/// A canonical decimal rendering at position `i`, followed by a non-digit or
/// the end of input, parses back to the value it renders.
proof fn lemma_parse_num_at(b: Seq<u8>, i: int, n: u8)
    requires
        0 <= i,
        i + dec_of(n).len() <= b.len(),
        b.subrange(i, i + dec_of(n).len()) == dec_of(n),
        i + dec_of(n).len() == b.len() || !is_digit(b[i + dec_of(n).len()]),
    ensures
        parse_num(b, i) == Some((n, i + dec_of(n).len())),
{
    lemma_dec_of_digits(n);
    let d = dec_of(n);
    let v = n as int;
    assert(forall|k: int| 0 <= k < d.len() ==> b[i + k] == d[k]) by {
        assert(forall|k: int|
            0 <= k < d.len() ==> b[i + k] == #[trigger] b.subrange(i, i + d.len())[k]);
    }
    if v == 0 {
        assert(b[i] == 48);
    } else if v < 10 {
        assert(b[i] == (48 + v) as u8);
        assert(dval(b[i]) == v);
    } else if v < 100 {
        lemma_fundamental_div_mod(v, 10);
        assert(b[i] == (48 + v / 10) as u8);
        assert(b[i + 1] == (48 + v % 10) as u8);
        assert(dval(b[i]) * 10 + dval(b[i + 1]) == v);
    } else {
        lemma_fundamental_div_mod(v, 10);
        lemma_fundamental_div_mod(v / 10, 10);
        lemma_div_denominator(v, 10, 10);
        assert(dval(b[i]) == v / 100);
        assert(dval(b[i + 1]) == (v / 10) % 10);
        assert(dval(b[i + 2]) == v % 10);
        assert(dval(b[i]) * 100 + dval(b[i + 1]) * 10 + dval(b[i + 2]) == v) by {
            assert(v == 10 * (v / 10) + v % 10);
            assert(v / 10 == 10 * ((v / 10) / 10) + (v / 10) % 10);
            assert((v / 10) / 10 == v / 100);
        }
    }
}

/// The items of a non-empty array, followed by the closing bracket, parse
/// back to the array.
proof fn lemma_parse_items(x: Seq<u8>, b: Seq<u8>, i: int)
    requires
        x.len() >= 1,
        0 <= i,
        i + arr_items(x).len() + 1 <= b.len(),
        b.subrange(i, i + arr_items(x).len()) == arr_items(x),
        b[i + arr_items(x).len()] == 93,
    ensures
        parse_arr_rest(b, i) == Some((x, i + arr_items(x).len() + 1)),
    decreases x.len(),
{
    let items = arr_items(x);
    let d = dec_of(x[0]);
    lemma_dec_of_digits(x[0]);
    assert(forall|k: int| 0 <= k < items.len() ==> b[i + k] == items[k]) by {
        assert(forall|k: int|
            0 <= k < items.len() ==> b[i + k] == #[trigger] b.subrange(i, i + items.len())[k]);
    }
    if x.len() == 1 {
        assert(items == d);
        assert(b.subrange(i, i + d.len()) =~= d);
        lemma_parse_num_at(b, i, x[0]);
        assert(b[i + d.len()] == 93);
        assert(seq![x[0]] =~= x);
    } else {
        let rest = x.drop_first();
        assert(items =~= d + seq![44u8] + arr_items(rest));
        assert(b.subrange(i, i + d.len()) =~= d) by {
            assert(forall|k: int| 0 <= k < d.len() ==> items[k] == d[k]);
        }
        assert(b[i + d.len()] == items[d.len() as int]);
        assert(items[d.len() as int] == 44);
        lemma_parse_num_at(b, i, x[0]);
        let j = i + d.len();
        let i2 = j + 1;
        assert(b.subrange(i2, i2 + arr_items(rest).len()) =~= arr_items(rest)) by {
            assert(forall|k: int|
                0 <= k < arr_items(rest).len() ==> items[d.len() + 1 + k] == #[trigger] arr_items(
                    rest,
                )[k]);
        }
        assert(b[i2 + arr_items(rest).len()] == 93) by {
            assert(i2 + arr_items(rest).len() == i + items.len());
        }
        lemma_parse_items(rest, b, i2);
        assert(seq![x[0]] + rest =~= x);
    }
}

/// A canonical array encoding parses back to its contents.
proof fn lemma_parse_arr_at(x: Seq<u8>, b: Seq<u8>, i: int)
    requires
        0 <= i,
        i + json_arr(x).len() <= b.len(),
        b.subrange(i, i + json_arr(x).len()) == json_arr(x),
    ensures
        parse_arr(b, i) == Some((x, i + json_arr(x).len())),
{
    let a = json_arr(x);
    let a_sub = b.subrange(i, i + a.len() as int);
    assert(a_sub == a);
    assert(forall|k: int| 0 <= k < a.len() ==> b[i + k] == #[trigger] a_sub[k]);
    assert(b[i] == a_sub[0]);
    assert(b[i] == 91);
    if x.len() == 0 {
        assert(a =~= seq![91u8, 93u8]);
        assert(b[i + 1] == a_sub[1]);
        assert(b[i + 1] == 93);
        assert(parse_arr(b, i) == Some((Seq::<u8>::empty(), i + 2)));
        assert(Seq::<u8>::empty() =~= x);
    } else {
        lemma_dec_of_digits(x[0]);
        assert(a[1] == arr_items(x)[0]);
        assert(arr_items(x)[0] == dec_of(x[0])[0]) by {
            if x.len() == 1 {
            } else {
                assert(arr_items(x) =~= dec_of(x[0]) + seq![44u8] + arr_items(x.drop_first()));
            }
        }
        assert(b[i + 1] == a_sub[1]);
        assert(is_digit(b[i + 1]));
        assert(b[i + 1] != 93);
        assert(b.subrange(i + 1, i + 1 + arr_items(x).len()) =~= arr_items(x)) by {
            assert(forall|k: int|
                0 <= k < arr_items(x).len() ==> a[1 + k] == #[trigger] arr_items(x)[k]);
        }
        assert(b[i + 1 + arr_items(x).len()] == a_sub[1 + arr_items(x).len() as int]);
        assert(b[i + 1 + arr_items(x).len()] == 93);
        lemma_parse_items(x, b, i + 1);
    }
}

/// Every peer record the core writes is parsed back unchanged.
pub proof fn lemma_peer_record_round_trip(ct: Seq<u8>, nonce: Seq<u8>)
    ensures
        spec_parse_peer(spec_peer_record(ct, nonce)) == Some((ct, nonce)),
{
    let b = spec_peer_record(ct, nonce);
    let p = peer_prefix();
    let q = nonce_label();
    let a1 = json_arr(ct);
    let a2 = json_arr(nonce);
    let pl = p.len() as int;
    let ql = q.len() as int;
    assert(b.subrange(0, pl) =~= p);
    assert(b.subrange(pl, pl + a1.len()) =~= a1);
    lemma_parse_arr_at(ct, b, pl);
    let i = pl + a1.len() as int;
    assert(b.subrange(i, i + ql) =~= q);
    assert(b.subrange(i + ql, i + ql + a2.len()) =~= a2);
    lemma_parse_arr_at(nonce, b, i + ql);
    let j = i + ql + a2.len() as int;
    assert(b[j] == 125);
    assert(j + 1 == b.len());
}

/// Every identity record the core writes is parsed back unchanged.
pub proof fn lemma_identity_record_round_trip(pk: Seq<u8>, ct: Seq<u8>, nonce: Seq<u8>)
    ensures
        spec_parse_identity(spec_identity_record(pk, ct, nonce)) == Some((pk, ct, nonce)),
{
    let b = spec_identity_record(pk, ct, nonce);
    let p = ident_prefix();
    let m = encpriv_label();
    let q = nonce_label();
    let a1 = json_arr(pk);
    let a2 = json_arr(ct);
    let a3 = json_arr(nonce);
    let pl = p.len() as int;
    let ml = m.len() as int;
    let ql = q.len() as int;
    assert(b.subrange(0, pl) =~= p);
    assert(b.subrange(pl, pl + a1.len()) =~= a1);
    lemma_parse_arr_at(pk, b, pl);
    let i = pl + a1.len() as int;
    assert(b.subrange(i, i + ml) =~= m);
    assert(b.subrange(i + ml, i + ml + a2.len()) =~= a2);
    lemma_parse_arr_at(ct, b, i + ml);
    let j = i + ml + a2.len() as int;
    assert(b.subrange(j, j + ql) =~= q);
    assert(b.subrange(j + ql, j + ql + a3.len()) =~= a3);
    lemma_parse_arr_at(nonce, b, j + ql);
    let k = j + ql + a3.len() as int;
    assert(b[k] == 125);
    assert(k + 1 == b.len());
}

/// One step of the item listing: the items of a suffix begin with the head
/// item's digits.
proof fn lemma_arr_items_step(s: Seq<u8>, i: int)
    requires
        0 <= i < s.len(),
    ensures
        i < s.len() - 1 ==> arr_items(s.skip(i)) == dec_of(s[i]) + seq![44u8] + arr_items(
            s.skip(i + 1),
        ),
        i == s.len() - 1 ==> arr_items(s.skip(i)) == dec_of(s[i]),
{
    let t = s.skip(i);
    assert(t[0] == s[i]);
    if i < s.len() - 1 {
        assert(t.drop_first() =~= s.skip(i + 1));
    } else {
        assert(t.len() == 1);
    }
}

fn emit_num(out: &mut Vec<u8>, n: u8)
    ensures
        final(out)@ == old(out)@ + dec_of(n),
{
    if n < 10 {
        out.push(48 + n);
        assert(final(out)@ =~= old(out)@ + dec_of(n));
    } else if n < 100 {
        out.push(48 + n / 10);
        out.push(48 + n % 10);
        assert(final(out)@ =~= old(out)@ + dec_of(n));
    } else {
        out.push(48 + n / 100);
        out.push(48 + (n / 10) % 10);
        out.push(48 + n % 10);
        assert(final(out)@ =~= old(out)@ + dec_of(n));
    }
}

fn emit_arr(out: &mut Vec<u8>, s: &[u8])
    ensures
        final(out)@ == old(out)@ + json_arr(s@),
{
    let n = s.len();
    out.push(91);
    proof {
        assert(s@.skip(0) =~= s@);
        assert(out@ =~= old(out)@ + seq![91u8]);
    }
    for i in 0..n
        invariant
            n == s@.len(),
            out@ + arr_items(s@.skip(i as int)) == old(out)@ + seq![91u8] + arr_items(s@),
    {
        proof {
            lemma_arr_items_step(s@, i as int);
        }
        emit_num(out, s[i]);
        if i + 1 < n {
            out.push(44);
        }
        proof {
            if i + 1 < n {
                assert(out@ + arr_items(s@.skip(i + 1)) =~= old(out)@ + seq![91u8] + arr_items(
                    s@,
                ));
            } else {
                assert(s@.skip(i as int).len() == 1);
                assert(s@.skip(i + 1) =~= Seq::<u8>::empty());
                assert(out@ + arr_items(s@.skip(i + 1)) =~= old(out)@ + seq![91u8] + arr_items(
                    s@,
                ));
            }
        }
    }
    proof {
        assert(s@.skip(n as int) =~= Seq::<u8>::empty());
        assert(out@ =~= old(out)@ + seq![91u8] + arr_items(s@));
    }
    out.push(93);
    assert(final(out)@ =~= old(out)@ + json_arr(s@));
}

fn peer_prefix_bytes() -> (r: Vec<u8>)
    ensures
        r@ == peer_prefix(),
{
    let r: Vec<u8> = vec![123, 34, 101, 110, 99, 114, 121, 112, 116, 101, 100, 95, 107, 101, 121,
        34, 58];
    assert(r@ =~= peer_prefix());
    r
}

fn ident_prefix_bytes() -> (r: Vec<u8>)
    ensures
        r@ == ident_prefix(),
{
    let r: Vec<u8> = vec![123, 34, 112, 117, 98, 108, 105, 99, 95, 107, 101, 121, 34, 58];
    assert(r@ =~= ident_prefix());
    r
}

fn encpriv_label_bytes() -> (r: Vec<u8>)
    ensures
        r@ == encpriv_label(),
{
    let r: Vec<u8> = vec![44, 34, 101, 110, 99, 114, 121, 112, 116, 101, 100, 95, 112, 114, 105,
        118, 97, 116, 101, 95, 107, 101, 121, 34, 58];
    assert(r@ =~= encpriv_label());
    r
}

fn nonce_label_bytes() -> (r: Vec<u8>)
    ensures
        r@ == nonce_label(),
{
    let r: Vec<u8> = vec![44, 34, 110, 111, 110, 99, 101, 34, 58];
    assert(r@ =~= nonce_label());
    r
}

fn emit_bytes(out: &mut Vec<u8>, pat: &Vec<u8>)
    ensures
        final(out)@ == old(out)@ + pat@,
{
    let n = pat.len();
    for i in 0..n
        invariant
            n == pat@.len(),
            out@ == old(out)@ + pat@.take(i as int),
    {
        out.push(pat[i]);
        assert(out@ =~= old(out)@ + pat@.take(i + 1));
    }
    assert(final(out)@ =~= old(out)@ + pat@);
}

/// Serializes a peer record: the wrapped key bytes and the wrapping nonce.
pub fn encode_peer_record(ct: &[u8], nonce: &[u8]) -> (r: Vec<u8>)
    ensures
        r@ == spec_peer_record(ct@, nonce@),
{
    let mut out: Vec<u8> = Vec::new();
    let p = peer_prefix_bytes();
    emit_bytes(&mut out, &p);
    emit_arr(&mut out, ct);
    let q = nonce_label_bytes();
    emit_bytes(&mut out, &q);
    emit_arr(&mut out, nonce);
    out.push(125);
    assert(out@ =~= spec_peer_record(ct@, nonce@));
    out
}

/// Serializes the identity record: public bytes, wrapped private bytes and
/// the wrapping nonce.
pub fn encode_identity_record(pk: &[u8], ct: &[u8], nonce: &[u8]) -> (r: Vec<u8>)
    ensures
        r@ == spec_identity_record(pk@, ct@, nonce@),
{
    let mut out: Vec<u8> = Vec::new();
    let p = ident_prefix_bytes();
    emit_bytes(&mut out, &p);
    emit_arr(&mut out, pk);
    let m = encpriv_label_bytes();
    emit_bytes(&mut out, &m);
    emit_arr(&mut out, ct);
    let q = nonce_label_bytes();
    emit_bytes(&mut out, &q);
    emit_arr(&mut out, nonce);
    out.push(125);
    assert(out@ =~= spec_identity_record(pk@, ct@, nonce@));
    out
}

fn digit_at(b: &[u8], i: usize) -> (r: bool)
    requires
        i < b@.len(),
    ensures
        r == is_digit(b@[i as int]),
{
    48 <= b[i] && b[i] <= 57
}

fn parse_num_at(b: &[u8], i: usize) -> (r: Option<(u8, usize)>)
    ensures
        match r {
            Some((v, j)) => parse_num(b@, i as int) == Some((v, j as int)) && i < j && j
                <= b@.len(),
            None => parse_num(b@, i as int) is None,
        },
{
    if i < b.len() && digit_at(b, i) {
        if b[i] == 48 {
            Some((0, i + 1))
        } else if i + 1 < b.len() && digit_at(b, i + 1) {
            if i + 2 < b.len() && digit_at(b, i + 2) {
                let v: u32 = (b[i] - 48) as u32 * 100 + (b[i + 1] - 48) as u32 * 10 + (b[i + 2]
                    - 48) as u32;
                if v <= 255 {
                    Some((v as u8, i + 3))
                } else {
                    None
                }
            } else {
                Some(((b[i] - 48) * 10 + (b[i + 1] - 48), i + 2))
            }
        } else {
            Some((b[i] - 48, i + 1))
        }
    } else {
        None
    }
}

fn parse_arr_rest_at(b: &[u8], i: usize) -> (r: Option<(Vec<u8>, usize)>)
    ensures
        match r {
            Some((v, j)) => parse_arr_rest(b@, i as int) == Some((v@, j as int)) && j <= b@.len(),
            None => parse_arr_rest(b@, i as int) is None,
        },
    decreases b@.len() - i,
{
    match parse_num_at(b, i) {
        None => None,
        Some((v, j)) => {
            if j < b.len() && b[j] == 44 {
                match parse_arr_rest_at(b, j + 1) {
                    None => None,
                    Some((mut rest, k)) => {
                        rest.insert(0, v);
                        assert(rest@ =~= seq![v] + rest@.drop_first());
                        Some((rest, k))
                    },
                }
            } else if j < b.len() && b[j] == 93 {
                let one: Vec<u8> = vec![v];
                assert(one@ =~= seq![v]);
                Some((one, j + 1))
            } else {
                None
            }
        },
    }
}

fn parse_arr_at(b: &[u8], i: usize) -> (r: Option<(Vec<u8>, usize)>)
    ensures
        match r {
            Some((v, j)) => parse_arr(b@, i as int) == Some((v@, j as int)) && j <= b@.len(),
            None => parse_arr(b@, i as int) is None,
        },
{
    if i < b.len() && b[i] == 91 {
        if i + 1 < b.len() && b[i + 1] == 93 {
            let empty: Vec<u8> = Vec::new();
            Some((empty, i + 2))
        } else {
            parse_arr_rest_at(b, i + 1)
        }
    } else {
        None
    }
}

fn bytes_at(b: &[u8], i: usize, pat: &Vec<u8>) -> (r: bool)
    requires
        i <= b@.len(),
    ensures
        r == (i + pat@.len() <= b@.len() && b@.subrange(i as int, i + pat@.len()) == pat@),
{
    let n = pat.len();
    let blen = b.len();
    if blen - i < n {
        return false;
    }
    for k in 0..n
        invariant
            n == pat@.len(),
            blen == b@.len(),
            i + n <= blen,
            forall|t: int| 0 <= t < k ==> b@[i + t] == pat@[t],
    {
        if b[i + k] != pat[k] {
            proof {
                assert(b@.subrange(i as int, i + pat@.len())[k as int] == b@[i + k]);
            }
            return false;
        }
    }
    proof {
        assert(b@.subrange(i as int, i + pat@.len()) =~= pat@);
    }
    true
}

/// Parses a peer record, accepting exactly the canonical form.
pub fn parse_peer_record(b: &[u8]) -> (r: Option<(Vec<u8>, Vec<u8>)>)
    ensures
        match r {
            Some((ct, nonce)) => spec_parse_peer(b@) == Some((ct@, nonce@)),
            None => spec_parse_peer(b@) is None,
        },
{
    let blen = b.len();
    let p = peer_prefix_bytes();
    if !bytes_at(b, 0, &p) {
        return None;
    }
    match parse_arr_at(b, p.len()) {
        None => None,
        Some((ct, i)) => {
            let q = nonce_label_bytes();
            if !bytes_at(b, i, &q) {
                return None;
            }
            assert(i + q@.len() <= blen);
            match parse_arr_at(b, i + q.len()) {
                None => None,
                Some((nonce, j)) => {
                    if j < b.len() && b[j] == 125 && j + 1 == b.len() {
                        Some((ct, nonce))
                    } else {
                        None
                    }
                },
            }
        },
    }
}

/// Parses an identity record, accepting exactly the canonical form.
pub fn parse_identity_record(b: &[u8]) -> (r: Option<(Vec<u8>, Vec<u8>, Vec<u8>)>)
    ensures
        match r {
            Some((pk, ct, nonce)) => spec_parse_identity(b@) == Some((pk@, ct@, nonce@)),
            None => spec_parse_identity(b@) is None,
        },
{
    let blen = b.len();
    let p = ident_prefix_bytes();
    if !bytes_at(b, 0, &p) {
        return None;
    }
    match parse_arr_at(b, p.len()) {
        None => None,
        Some((pk, i)) => {
            let m = encpriv_label_bytes();
            if !bytes_at(b, i, &m) {
                return None;
            }
            assert(i + m@.len() <= blen);
            match parse_arr_at(b, i + m.len()) {
                None => None,
                Some((ct, j)) => {
                    let q = nonce_label_bytes();
                    if !bytes_at(b, j, &q) {
                        return None;
                    }
                    assert(j + q@.len() <= blen);
                    match parse_arr_at(b, j + q.len()) {
                        None => None,
                        Some((nonce, k)) => {
                            if k < b.len() && b[k] == 125 && k + 1 == b.len() {
                                Some((pk, ct, nonce))
                            } else {
                                None
                            }
                        },
                    }
                },
            }
        },
    }
}

} // verus!
