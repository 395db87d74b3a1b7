//! Identity resolution at connect time.
//!
//! A client may supply a display name and a peer identifier as connect-time
//! parameters; both are optional. A missing display name defaults to
//! `"Anonymous"`; a missing identifier is generated from a fresh random
//! token: the fixed prefix `"peer_"` followed by the token up to its first
//! hyphen. Identity is self-asserted — no authentication happens here.

use vstd::prelude::*;
use crate::protocol::{default_display_name, id_prefix, spec_default_display_name,
    spec_id_prefix};

verus! {

/// The longest hyphen-free prefix of a token.
pub open spec fn spec_token_prefix(t: Seq<u8>) -> Seq<u8>
    decreases t.len(),
{
    if t.len() == 0 {
        t
    } else if t[0] == '-' as u8 {
        Seq::empty()
    } else {
        seq![t[0]] + spec_token_prefix(t.drop_first())
    }
}

/// A generated peer identifier: the fixed prefix, then the token up to its
/// first hyphen.
pub open spec fn spec_generated_peer_id(token: Seq<u8>) -> Seq<u8> {
    spec_id_prefix() + spec_token_prefix(token)
}

/// The hyphen-free prefix is the part before the first hyphen.
proof fn lemma_token_prefix_take(t: Seq<u8>, i: int)
    requires
        0 <= i <= t.len(),
        forall|j: int| 0 <= j < i ==> t[j] != '-' as u8,
        i == t.len() || t[i] == '-' as u8,
    ensures
        spec_token_prefix(t) == t.take(i),
    decreases t.len(),
{
    if t.len() == 0 {
        assert(t.take(i) =~= t);
    } else if t[0] == '-' as u8 {
        assert(i == 0);
        assert(t.take(i) =~= Seq::<u8>::empty());
    } else {
        assert(i >= 1);
        assert(forall|j: int| 0 <= j < i - 1 ==> t.drop_first()[j] != '-' as u8);
        lemma_token_prefix_take(t.drop_first(), i - 1);
        assert(seq![t[0]] + t.drop_first().take(i - 1) =~= t.take(i));
    }
}

/// Build a peer identifier from a token: the fixed prefix, then the token's
/// bytes up to (not including) its first hyphen.
pub fn generated_peer_id(token: &Vec<u8>) -> (r: Vec<u8>)
    ensures
        r@ == spec_generated_peer_id(token@),
{
    let mut i: usize = 0;
    while i < token.len() && token[i] != ('-' as u8)
        invariant
            i <= token@.len(),
            forall|j: int| 0 <= j < i ==> token@[j] != '-' as u8,
        decreases token@.len() - i,
    {
        i = i + 1;
    }
    proof {
        lemma_token_prefix_take(token@, i as int);
    }
    let mut r = id_prefix();
    let mut j: usize = 0;
    while j < i
        invariant
            j <= i <= token@.len(),
            r@ == spec_id_prefix() + token@.take(j as int),
        decreases i - j,
    {
        r.push(token[j]);
        proof {
            assert(spec_id_prefix() + token@.take(j as int) + seq![token@[j as int]]
                =~= spec_id_prefix() + token@.take(j + 1));
        }
        j = j + 1;
    }
    proof {
        assert(spec_id_prefix() + token@.take(0) =~= spec_id_prefix());
    }
    r
}

/// A fresh opaque token for a peer that supplied no identifier.
///
/// Relies on `uuid::Uuid::new_v4` and the hyphenated lower-case form that
/// `uuid::Uuid`'s `Display` documents: 36 ASCII bytes, eight hexadecimal
/// digits first, so the first hyphen stands at position 8. Nothing more is
/// assumed of the randomly drawn value.
#[verifier::external_body]
pub fn fresh_token() -> (r: Vec<u8>)
    ensures
        r@.len() == 36,
        r@[8] == '-' as u8,
        forall|i: int| 0 <= i < 8 ==> r@[i] != '-' as u8,
{
    uuid::Uuid::new_v4().to_string().into_bytes()
}

/// A freshly generated peer identifier: the fixed prefix and the eight
/// leading digits of a random token.
pub fn fresh_peer_id() -> (r: Vec<u8>)
    ensures
        r@.len() == spec_id_prefix().len() + 8,
        r@.take(spec_id_prefix().len() as int) == spec_id_prefix(),
{
    let token = fresh_token();
    let r = generated_peer_id(&token);
    proof {
        lemma_token_prefix_take(token@, 8);
        assert(r@.take(spec_id_prefix().len() as int) =~= spec_id_prefix());
    }
    r
}

/// The display name a connection starts with: the client's parameter, or the
/// default.
pub fn resolve_display_name(param: Option<Vec<u8>>) -> (r: Vec<u8>)
    ensures
        r@ == match param {
            Option::Some(p) => p@,
            Option::None => spec_default_display_name(),
        },
{
    match param {
        Option::Some(p) => p,
        Option::None => default_display_name(),
    }
}

/// The peer identifier a connection starts with: the client's parameter, or
/// one generated from the given token.
pub fn resolve_peer_id(param: Option<Vec<u8>>, token: &Vec<u8>) -> (r: Vec<u8>)
    ensures
        r@ == match param {
            Option::Some(p) => p@,
            Option::None => spec_generated_peer_id(token@),
        },
{
    match param {
        Option::Some(p) => p,
        Option::None => generated_peer_id(token),
    }
}

} // verus!
