use crate::archive::byte_views;
use crate::layout::{signed_decimal, signed_decimal_bytes};
use vstd::string::StringSliceAdditionalSpecFns;
use vstd::bytes::*;
use vstd::prelude::*;

verus! {

/// What the cache holds of one game.
#[derive(Debug, Clone)]
pub struct CacheGameState {
    pub id: i32,
    pub shard_id: String,
    pub finished_seq_id: u32,
}

/// The bytes "flo_observer:" that open every key of the cache.
pub open spec fn namespace() -> Seq<u8> {
    seq![0x66u8, 0x6cu8, 0x6fu8, 0x5fu8, 0x6fu8, 0x62u8, 0x73u8, 0x65u8, 0x72u8, 0x76u8, 0x65u8, 0x72u8, 0x3au8]
}

/// The key of the hash of a shard: "flo_observer:shard:" then the shard id.
pub open spec fn spec_shard_key(shard_id: Seq<u8>) -> Seq<u8> {
    namespace() + seq![0x73u8, 0x68u8, 0x61u8, 0x72u8, 0x64u8, 0x3au8] + shard_id
}

/// The key of the hash of a game: "flo_observer:game:" then the game id in
/// decimal.
pub open spec fn spec_game_key(game_id: i32) -> Seq<u8> {
    namespace() + seq![0x67u8, 0x61u8, 0x6du8, 0x65u8, 0x3au8] + signed_decimal(game_id as int)
}

fn namespace_bytes() -> (r: Vec<u8>)
    ensures
        r@ == namespace(),
{
    let r: Vec<u8> = vec![0x66u8, 0x6cu8, 0x6fu8, 0x5fu8, 0x6fu8, 0x62u8, 0x73u8, 0x65u8, 0x72u8, 0x76u8, 0x65u8, 0x72u8, 0x3au8];
    assert(r@ =~= namespace());
    r
}

/// The key of the hash that holds a shard's finished sequence number.
pub fn shard_key(shard_id: &str) -> (r: Vec<u8>)
    ensures
        r@ == spec_shard_key(shard_id.spec_bytes()),
{
    let mut r = namespace_bytes();
    r.push(0x73u8);
    r.push(0x68u8);
    r.push(0x61u8);
    r.push(0x72u8);
    r.push(0x64u8);
    r.push(0x3au8);
    let ghost head = r@;
    let b = shard_id.as_bytes();
    let mut i: usize = 0;
    while i < b.len()
        invariant
            i <= b@.len(),
            b@ == shard_id.spec_bytes(),
            r@ == head + b@.take(i as int),
        decreases b@.len() - i,
    {
        r.push(b[i]);
        i = i + 1;
        assert(r@ =~= head + b@.take(i as int));
    }
    assert(b@.take(i as int) =~= b@);
    assert(head =~= namespace() + seq![0x73u8, 0x68u8, 0x61u8, 0x72u8, 0x64u8, 0x3au8]);
    r
}

/// The key of the hash that holds a game's shard and finished sequence id.
pub fn game_key(game_id: i32) -> (r: Vec<u8>)
    ensures
        r@ == spec_game_key(game_id),
{
    let mut r = namespace_bytes();
    r.push(0x67u8);
    r.push(0x61u8);
    r.push(0x6du8);
    r.push(0x65u8);
    r.push(0x3au8);
    let mut d = signed_decimal_bytes(game_id);
    r.append(&mut d);
    assert(r@ =~= spec_game_key(game_id));
    r
}

/// The member of the game set that stands for `game_id`: its four bytes
/// little-endian.
pub open spec fn spec_game_member(game_id: i32) -> Seq<u8> {
    spec_u32_to_le_bytes(game_id as u32)
}

/// The game id a four-byte member stands for.
pub open spec fn spec_member_game_id(b: Seq<u8>) -> i32 {
    spec_u32_from_le_bytes(b) as i32
}

/// The games that a listing of the game set names, in listing order;
/// members that are not four bytes long are skipped.
pub open spec fn decode_members(ms: Seq<Seq<u8>>) -> Seq<i32>
    decreases ms.len(),
{
    if ms.len() == 0 {
        Seq::empty()
    } else if ms.last().len() == 4 {
        decode_members(ms.drop_last()).push(spec_member_game_id(ms.last()))
    } else {
        decode_members(ms.drop_last())
    }
}

/// The state of a game from the two fields of its hash: present only when
/// the shard is set and the finished sequence id is set and four bytes long.
pub open spec fn spec_game_state(
    game_id: i32,
    shard_id: Option<String>,
    finished_seq_id: Option<Seq<u8>>,
) -> Option<CacheGameState> {
    match (shard_id, finished_seq_id) {
        (Some(s), Some(b)) => if b.len() == 4 {
            Some(
                CacheGameState {
                    id: game_id,
                    shard_id: s,
                    finished_seq_id: spec_u32_from_le_bytes(b),
                },
            )
        } else {
            None
        },
        _ => None,
    }
}

/// The set member for `game_id`.
pub fn game_member(game_id: i32) -> (r: Vec<u8>)
    ensures
        r@ == spec_game_member(game_id),
{
    u32_to_le_bytes(game_id as u32)
}

/// The stored form of a finished sequence id: four bytes little-endian.
pub fn seq_id_bytes(value: u32) -> (r: Vec<u8>)
    ensures
        r@ == spec_u32_to_le_bytes(value),
        r@.len() == 4,
{
    u32_to_le_bytes(value)
}

/// The game ids of a listing of the game set.
pub fn decode_game_members(members: &Vec<Vec<u8>>) -> (r: Vec<i32>)
    ensures
        r@ == decode_members(byte_views(members@)),
{
    let ghost ms = byte_views(members@);
    let mut out: Vec<i32> = Vec::new();
    let mut i: usize = 0;
    while i < members.len()
        invariant
            i <= members@.len(),
            ms == byte_views(members@),
            out@ == decode_members(ms.take(i as int)),
        decreases members@.len() - i,
    {
        assert(ms.take(i + 1).drop_last() =~= ms.take(i as int));
        let m = &members[i];
        if m.len() == 4 {
            let x = u32_from_le_bytes(m.as_slice());
            out.push(x as i32);
        }
        i = i + 1;
    }
    assert(ms.take(i as int) =~= ms);
    out
}

/// Assembles the state of a game from the fields its hash returned.
pub fn game_state_from_fields(
    game_id: i32,
    shard_id: Option<String>,
    finished_seq_id: Option<Vec<u8>>,
) -> (r: Option<CacheGameState>)
    ensures
        r == spec_game_state(
            game_id,
            shard_id,
            match finished_seq_id {
                Some(b) => Some(b@),
                None => None,
            },
        ),
{
    match shard_id {
        Some(s) => match finished_seq_id {
            Some(b) => {
                if b.len() == 4 {
                    let v = u32_from_le_bytes(b.as_slice());
                    Some(CacheGameState { id: game_id, shard_id: s, finished_seq_id: v })
                } else {
                    None
                }
            },
            None => None,
        },
        None => None,
    }
}

/// A game added to the set is listed: the listing of a set with its
/// member added names it, after the games named before.
pub proof fn lemma_added_game_listed(ms: Seq<Seq<u8>>, game_id: i32)
    ensures
        decode_members(ms.push(spec_game_member(game_id))) == decode_members(ms).push(game_id),
        decode_members(ms.push(spec_game_member(game_id))).contains(game_id),
{
    lemma_auto_spec_u32_to_from_le_bytes();
    assert(((game_id as u32) as i32) == game_id) by (bit_vector);
    let l = decode_members(ms.push(spec_game_member(game_id)));
    assert(ms.push(spec_game_member(game_id)).drop_last() =~= ms);
    assert(l[l.len() - 1] == game_id);
}

/// A game whose member is not in the listing is not named by it.
pub proof fn lemma_removed_game_not_listed(ms: Seq<Seq<u8>>, game_id: i32)
    requires
        forall|i: int| 0 <= i < ms.len() ==> #[trigger] ms[i] != spec_game_member(game_id),
    ensures
        !decode_members(ms).contains(game_id),
    decreases ms.len(),
{
    lemma_auto_spec_u32_to_from_le_bytes();
    if ms.len() > 0 {
        let front = ms.drop_last();
        assert forall|i: int| 0 <= i < front.len() implies #[trigger] front[i] != spec_game_member(
            game_id,
        ) by {
            assert(front[i] == ms[i]);
        }
        lemma_removed_game_not_listed(front, game_id);
        if ms.last().len() == 4 {
            let b = ms.last();
            if spec_member_game_id(b) == game_id {
                let x = spec_u32_from_le_bytes(b);
                assert(((x as i32) as u32) == x) by (bit_vector);
                assert(spec_game_member(game_id) == spec_u32_to_le_bytes(x));
                assert(ms[ms.len() - 1] == b);
            }
            let l = decode_members(ms);
            assert(l == decode_members(front).push(spec_member_game_id(b)));
            if l.contains(game_id) {
                let k = choose|k: int| 0 <= k < l.len() && l[k] == game_id;
                if k < l.len() - 1 {
                    assert(decode_members(front)[k] == game_id);
                }
            }
        }
    }
}

/// A game whose shard and finished sequence id were stored reads back with
/// exactly those values.
pub proof fn lemma_game_state_round_trip(game_id: i32, shard_id: String, value: u32)
    ensures
        spec_game_state(game_id, Some(shard_id), Some(spec_u32_to_le_bytes(value))) == Some(
            CacheGameState { id: game_id, shard_id, finished_seq_id: value },
        ),
{
    lemma_auto_spec_u32_to_from_le_bytes();
}

/// A game whose finished sequence id was never stored has no state yet,
/// whatever its shard.
pub proof fn lemma_game_state_unset(game_id: i32, shard_id: Option<String>)
    ensures
        spec_game_state(game_id, shard_id, None) is None,
{
}

} // verus!
