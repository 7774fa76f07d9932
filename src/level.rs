#![allow(non_snake_case)]
use std::collections::HashMap;
use vstd::prelude::*;

use crate::settings::{serialize_settings, settings_json, Settings};
use crate::text::{
    all_digits, chars_of, dec, find_underscore, lemma_dec_facts, push_dec, push_signed, push_text,
    run_value, same_chars, signed_dec, string_from, value_of,
};

verus! {

broadcast use vstd::std_specs::hash::group_hash_axioms;

/// Height of every world, in blocks.
pub const HEIGHT: u64 = 64;

/// The block type that marks "no override" in a position's entry.
pub const NO_OVERRIDE: u8 = 255;

/// The world sizes that a save may have.
pub open spec fn valid_world_size(ws: int) -> bool {
    ws == 128 || ws == 256 || ws == 512
}

/// Number of cells of a world of width and depth `ws`.
pub open spec fn cell_count(ws: int) -> int {
    ws * ws * (HEIGHT as int)
}

/// One entry of the changed-blocks map: `a` is 0 when the block equals the
/// generated terrain and 1 when it differs; `bt` is the block type.
#[derive(Clone, Copy, Debug, PartialEq, Eq, Structural)]
pub struct ChangedBlocks {
    pub a: u8,
    pub bt: u8,
}

impl ChangedBlocks {
    pub fn new(a: u8, bt: u8) -> (r: Self)
        ensures
            r == (ChangedBlocks { a, bt }),
    {
        ChangedBlocks { a, bt }
    }
}

/// A world save: its seed, the blocks recorded as changed (keyed by the
/// position's flat index `y * ws * ws + z * ws + x`), its size and version.
#[derive(Debug)]
pub struct JSLevel {
    pub worldSeed: i64,
    pub changedBlocks: HashMap<u64, ChangedBlocks>,
    pub worldSize: i32,
    pub version: u8,
}

impl JSLevel {
    pub fn new(
        worldSeed: i64,
        changedBlocks: HashMap<u64, ChangedBlocks>,
        worldSize: i32,
        version: u8,
    ) -> (r: Self)
        ensures
            r.worldSeed == worldSeed,
            r.changedBlocks@ == changedBlocks@,
            r.worldSize == worldSize,
            r.version == version,
    {
        JSLevel { worldSeed, changedBlocks, worldSize, version }
    }

    pub fn default() -> (r: Self)
        ensures
            r.worldSeed == 1,
            r.changedBlocks@ == Map::<u64, ChangedBlocks>::empty(),
            r.worldSize == 256,
            r.version == 1,
    {
        JSLevel { worldSeed: 1, changedBlocks: HashMap::new(), worldSize: 256, version: 1 }
    }
}

/// A world save together with the settings stored beside it.
#[derive(Debug)]
pub struct Data {
    pub js_level: JSLevel,
    pub settings: Settings,
}

impl Data {
    pub fn new(js_level: JSLevel, settings: Settings) -> (r: Self)
        ensures
            r.js_level == js_level,
            r.settings == settings,
    {
        Data { js_level, settings }
    }
}

/// The block type that an override forces at cell `i`, if any.
pub open spec fn forced(ov: Map<u64, ChangedBlocks>, i: int) -> Option<u8> {
    if ov.contains_key(i as u64) && ov[i as u64].bt != NO_OVERRIDE {
        Some(ov[i as u64].bt)
    } else {
        None
    }
}

/// The block at cell `i`: the forced block, else the one in the tile map.
pub open spec fn effective(ov: Map<u64, ChangedBlocks>, tm: Seq<u8>, i: int) -> u8 {
    match forced(ov, i) {
        Some(b) => b,
        None => tm[i],
    }
}

pub open spec fn differs(ov: Map<u64, ChangedBlocks>, tm: Seq<u8>, bl: Seq<u8>, i: int) -> bool {
    effective(ov, tm, i) != bl[i]
}

/// Whether the policy `opt` writes cell `i`: 0 writes every cell, 1 the
/// forced or differing ones, 2 the differing ones, any other value none.
pub open spec fn emitted(
    ov: Map<u64, ChangedBlocks>,
    tm: Seq<u8>,
    bl: Seq<u8>,
    opt: u8,
    i: int,
) -> bool {
    opt == 0 || (opt == 1 && (forced(ov, i) is Some || differs(ov, tm, bl, i))) || (opt == 2
        && differs(ov, tm, bl, i))
}

pub open spec fn entry_at(ov: Map<u64, ChangedBlocks>, tm: Seq<u8>, bl: Seq<u8>, i: int) -> ChangedBlocks {
    ChangedBlocks { a: if differs(ov, tm, bl, i) { 1 } else { 0 }, bt: effective(ov, tm, i) }
}

/// The changed-blocks map that the encoder writes for the first `n` cells,
/// keyed by flat index.
pub open spec fn diff_map(
    ov: Map<u64, ChangedBlocks>,
    tm: Seq<u8>,
    bl: Seq<u8>,
    opt: u8,
    n: int,
) -> Map<u64, ChangedBlocks> {
    Map::new(|k: u64| k < n && emitted(ov, tm, bl, opt, k as int), |k: u64| entry_at(ov, tm, bl, k as int))
}

/// The position key `p{x}_{y}_{z}` of cell `i`.
pub open spec fn key_text(ws: int, i: int) -> Seq<char> {
    let x = i % ws;
    let z = (i / ws) % ws;
    let y = i / (ws * ws);
    "p"@ + dec(x as nat) + "_"@ + dec(y as nat) + "_"@ + dec(z as nat)
}

/// The quoted position key of cell `i` with its entry.
pub open spec fn entry_text(ws: int, i: int, e: ChangedBlocks) -> Seq<char> {
    "\""@ + key_text(ws, i) + "\":{\"a\":"@ + dec(e.a as nat) + ",\"bt\":"@ + dec(e.bt as nat)
        + "}"@
}

/// The comma-separated entries for the first `n` cells, in index order.
pub open spec fn entries_text(
    ov: Map<u64, ChangedBlocks>,
    tm: Seq<u8>,
    bl: Seq<u8>,
    opt: u8,
    ws: int,
    n: int,
) -> Seq<char>
    decreases n,
{
    if n <= 0 {
        Seq::empty()
    } else {
        let prev = entries_text(ov, tm, bl, opt, ws, n - 1);
        if emitted(ov, tm, bl, opt, n - 1) {
            let e = entry_text(ws, n - 1, entry_at(ov, tm, bl, n - 1));
            if prev.len() == 0 { e } else { prev + ","@ + e }
        } else {
            prev
        }
    }
}

/// The JSON document of a world save whose changed-blocks body is `body`.
pub open spec fn saved_game_json(seed: int, ws: int, version: int, body: Seq<char>) -> Seq<char> {
    "{\"worldSeed\":"@ + signed_dec(seed) + ",\"changedBlocks\":{"@ + body + "},\"worldSize\":"@
        + signed_dec(ws) + ",\"version\":"@ + dec(version as nat) + "}"@
}

/// The JSON document that `serialize_saved_game` writes.
pub open spec fn encoded_level(
    seed: int,
    ov: Map<u64, ChangedBlocks>,
    ws: int,
    version: int,
    tm: Seq<u8>,
    bl: Seq<u8>,
    opt: u8,
) -> Seq<char> {
    saved_game_json(seed, ws, version, entries_text(ov, tm, bl, opt, ws, cell_count(ws)))
}

fn push_key(out: &mut Vec<char>, ws: u64, i: u64)
    requires
        ws > 0,
        ws * ws <= 0xffff_ffff,
    ensures
        final(out)@ == old(out)@ + key_text(ws as int, i as int),
{
    proof {
        assert(ws * ws > 0) by (nonlinear_arith)
            requires ws > 0;
    }
    let x: u64 = i % ws;
    let z: u64 = (i / ws) % ws;
    let y: u64 = i / (ws * ws);
    push_text(out, "p");
    push_dec(out, x);
    push_text(out, "_");
    push_dec(out, y);
    push_text(out, "_");
    push_dec(out, z);
    proof {
        assert(final(out)@ =~= old(out)@ + key_text(ws as int, i as int));
    }
}

fn push_entry(out: &mut Vec<char>, ws: u64, i: u64, e: ChangedBlocks)
    requires
        ws > 0,
        ws * ws <= 0xffff_ffff,
    ensures
        final(out)@ == old(out)@ + entry_text(ws as int, i as int, e),
{
    push_text(out, "\"");
    push_key(out, ws, i);
    push_text(out, "\":{\"a\":");
    push_dec(out, e.a as u64);
    push_text(out, ",\"bt\":");
    push_dec(out, e.bt as u64);
    push_text(out, "}");
    proof {
        assert(final(out)@ =~= old(out)@ + entry_text(ws as int, i as int, e));
    }
}

proof fn lemma_entry_text_nonempty(ws: int, i: int, e: ChangedBlocks)
    ensures
        entry_text(ws, i, e).len() > 0,
{
    reveal_strlit("}");
}

/// Encodes a world save as JSON against the generated terrain `baseline`.
/// Each cell's block is the override's block where one is set (a block type
/// other than `NO_OVERRIDE`), else the tile map's; `a` tells whether it
/// differs from the baseline, and `opt` chooses which cells are written.
pub fn serialize_saved_game(level: JSLevel, tile_map: Vec<u8>, baseline: &Vec<u8>, opt: u8) -> (r: String)
    requires
        valid_world_size(level.worldSize as int),
        tile_map@.len() == cell_count(level.worldSize as int),
        baseline@.len() == cell_count(level.worldSize as int),
    ensures
        r@ == encoded_level(
            level.worldSeed as int,
            level.changedBlocks@,
            level.worldSize as int,
            level.version as int,
            tile_map@,
            baseline@,
            opt,
        ),
{
    let ws: u64 = level.worldSize as u64;
    proof {
        assert(ws * ws <= 262144) by (nonlinear_arith)
            requires ws <= 512;
    }
    let n: u64 = ws * ws * HEIGHT;
    let ghost ov = level.changedBlocks@;
    let mut out: Vec<char> = Vec::new();
    push_text(&mut out, "{\"worldSeed\":");
    push_signed(&mut out, level.worldSeed);
    push_text(&mut out, ",\"changedBlocks\":{");
    let ghost head = out@;
    let mut i: u64 = 0;
    let mut wrote: bool = false;
    while i < n
        invariant
            valid_world_size(ws as int),
            n == cell_count(ws as int),
            tile_map@.len() == n,
            baseline@.len() == n,
            ov == level.changedBlocks@,
            i <= n,
            out@ == head + entries_text(ov, tile_map@, baseline@, opt, ws as int, i as int),
            wrote == (entries_text(ov, tile_map@, baseline@, opt, ws as int, i as int).len() > 0),
        decreases n - i,
    {
        let forced_bt: Option<u8> = match level.changedBlocks.get(&i) {
            Some(cb) => if cb.bt != NO_OVERRIDE { Some(cb.bt) } else { None },
            None => None,
        };
        let t: u8 = match forced_bt {
            Some(b) => b,
            None => tile_map[i as usize],
        };
        let a: u8 = if t == baseline[i as usize] { 0 } else { 1 };
        let write: bool = opt == 0 || (opt == 1 && (forced_bt.is_some() || a == 1)) || (opt == 2
            && a == 1);
        proof {
            assert(forced_bt == forced(ov, i as int));
            assert(t == effective(ov, tile_map@, i as int));
        }
        if write {
            if wrote {
                push_text(&mut out, ",");
            }
            push_entry(&mut out, ws, i, ChangedBlocks { a, bt: t });
            proof {
                lemma_entry_text_nonempty(ws as int, i as int, ChangedBlocks { a, bt: t });
            }
            wrote = true;
        }
        i = i + 1;
        proof {
            assert(out@ =~= head + entries_text(ov, tile_map@, baseline@, opt, ws as int, i as int));
        }
    }
    push_text(&mut out, "},\"worldSize\":");
    push_signed(&mut out, level.worldSize as i64);
    push_text(&mut out, ",\"version\":");
    push_dec(&mut out, level.version as u64);
    push_text(&mut out, "}");
    proof {
        assert(out@ =~= encoded_level(
            level.worldSeed as int,
            ov,
            level.worldSize as int,
            level.version as int,
            tile_map@,
            baseline@,
            opt,
        ));
    }
    string_from(&out)
}

/// The dense tile map of a world of width `world_size`, from the sparse map
/// that the terrain generator returns: the generated block where there is
/// one, else 0.
pub fn get_tile_map(world_size: i32, generated: &HashMap<u64, u8>) -> (r: Vec<u8>)
    requires
        valid_world_size(world_size as int),
    ensures
        r@.len() == cell_count(world_size as int),
        forall|i: int|
            0 <= i < r@.len() ==> #[trigger] r@[i] == (if generated@.contains_key(i as u64) {
                generated@[i as u64]
            } else {
                0
            }),
{
    let ws: u64 = world_size as u64;
    proof {
        assert(ws * ws <= 262144) by (nonlinear_arith)
            requires ws <= 512;
    }
    let n: u64 = ws * ws * HEIGHT;
    let mut tile_map: Vec<u8> = Vec::new();
    let mut i: u64 = 0;
    while i < n
        invariant
            n == cell_count(world_size as int),
            i <= n,
            tile_map@.len() == i,
            forall|j: int|
                0 <= j < i ==> #[trigger] tile_map@[j] == (if generated@.contains_key(j as u64) {
                    generated@[j as u64]
                } else {
                    0
                }),
        decreases n - i,
    {
        let b: u8 = match generated.get(&i) {
            Some(v) => *v,
            None => 0,
        };
        tile_map.push(b);
        i = i + 1;
    }
    tile_map
}

/// The world width whose tile map has `len` cells, if it is a valid one.
pub open spec fn size_of_len(len: int) -> Option<i32> {
    if len == cell_count(128) {
        Some(128i32)
    } else if len == cell_count(256) {
        Some(256i32)
    } else if len == cell_count(512) {
        Some(512i32)
    } else {
        None
    }
}

fn world_size_of(len: usize) -> (r: i32)
    requires
        size_of_len(len as int) is Some,
    ensures
        r == size_of_len(len as int)->Some_0,
        valid_world_size(r as int),
        len == cell_count(r as int),
{
    if len == 128 * 128 * 64 {
        128
    } else if len == 256 * 256 * 64 {
        256
    } else {
        512
    }
}

/// The save of an unmodified world of seed `seed` whose blocks are
/// `tile_map`: it records, as differing, exactly the cells where the tile
/// map leaves the generated terrain `baseline`. This is what decoding the
/// `DifferOnly` encoding of such a world gives.
pub fn generate_saved_game_from_seed(seed: i64, tile_map: Vec<u8>, baseline: &Vec<u8>) -> (r: JSLevel)
    requires
        size_of_len(tile_map@.len() as int) is Some,
        baseline@.len() == tile_map@.len(),
    ensures
        r.worldSeed == seed,
        r.worldSize == size_of_len(tile_map@.len() as int)->Some_0,
        r.version == 1,
        r.changedBlocks@ == diff_map(
            Map::empty(),
            tile_map@,
            baseline@,
            2,
            tile_map@.len() as int,
        ),
{
    let world_size: i32 = world_size_of(tile_map.len());
    let n: usize = tile_map.len();
    let ghost ov = Map::<u64, ChangedBlocks>::empty();
    let mut changed: HashMap<u64, ChangedBlocks> = HashMap::new();
    proof {
        assert(changed@ =~= diff_map(ov, tile_map@, baseline@, 2, 0));
    }
    let mut i: usize = 0;
    while i < n
        invariant
            n == tile_map@.len(),
            baseline@.len() == n,
            i <= n,
            ov == Map::<u64, ChangedBlocks>::empty(),
            changed@ == diff_map(ov, tile_map@, baseline@, 2, i as int),
        decreases n - i,
    {
        let t: u8 = tile_map[i];
        let ghost before = changed@;
        if t != baseline[i] {
            changed.insert(i as u64, ChangedBlocks { a: 1, bt: t });
            proof {
                assert(changed@ == before.insert(i as u64, ChangedBlocks { a: 1, bt: t }));
            }
        }
        i = i + 1;
        proof {
            assert forall|k: u64| #[trigger] changed@.contains_key(k) == diff_map(ov, tile_map@, baseline@, 2, i as int).contains_key(k) by {
                if k == (i - 1) as u64 {
                    assert(forced(ov, i - 1) is None);
                } else {
                    assert(before.contains_key(k) == diff_map(ov, tile_map@, baseline@, 2, i - 1).contains_key(k));
                }
            }
            assert(changed@ =~= diff_map(ov, tile_map@, baseline@, 2, i as int));
        }
    }
    JSLevel::new(seed, changed, world_size, 1)
}

/// The `DifferOnly` encoding of an unmodified world of seed `seed` whose
/// blocks are `tile_map`.
pub fn serialize_saved_game_from_seed(seed: i64, tile_map: Vec<u8>, baseline: &Vec<u8>) -> (r: String)
    requires
        size_of_len(tile_map@.len() as int) is Some,
        baseline@.len() == tile_map@.len(),
    ensures
        r@ == encoded_level(
            seed as int,
            Map::empty(),
            size_of_len(tile_map@.len() as int)->Some_0 as int,
            1,
            tile_map@,
            baseline@,
            2,
        ),
{
    let world_size: i32 = world_size_of(tile_map.len());
    let level = JSLevel::new(seed, HashMap::new(), world_size, 1);
    serialize_saved_game(level, tile_map, baseline, 2)
}

/// Decoding a `DifferOnly` encoding and encoding it again with the same tile
/// map and baseline gives back the same changed blocks, provided no override
/// forces the baseline's block on a cell where the tile map differs from it.
pub proof fn lemma_differ_only_idempotent(
    ov: Map<u64, ChangedBlocks>,
    tm: Seq<u8>,
    bl: Seq<u8>,
    n: int,
)
    requires
        tm.len() == n,
        bl.len() == n,
        forall|i: int|
            0 <= i < n && #[trigger] forced(ov, i) == Some(bl[i]) ==> tm[i] == bl[i],
    ensures
        diff_map(diff_map(ov, tm, bl, 2, n), tm, bl, 2, n) == diff_map(ov, tm, bl, 2, n),
{
    let d = diff_map(ov, tm, bl, 2, n);
    assert forall|k: u64| k < n implies (differs(d, tm, bl, k as int) == differs(ov, tm, bl, k as int)
        && effective(d, tm, k as int) == effective(ov, tm, k as int)) || !differs(ov, tm, bl, k as int) by {
        if differs(ov, tm, bl, k as int) {
            assert(d.contains_key(k));
        } else if d.contains_key(k) {
        } else {
            if forced(ov, k as int) is Some {
                assert(forced(ov, k as int) == Some(bl[k as int]));
            }
        }
    }
    assert(diff_map(d, tm, bl, 2, n) =~= d);
}

/// With a tile map equal to the baseline and no overrides, the policy that
/// writes every cell writes each one with `a == 0`, and the two others write
/// nothing.
pub proof fn lemma_policies_on_unchanged_world(bl: Seq<u8>, n: int)
    requires
        bl.len() == n,
    ensures
        diff_map(Map::empty(), bl, bl, 0, n) == Map::new(
            |k: u64| k < n,
            |k: u64| ChangedBlocks { a: 0, bt: bl[k as int] },
        ),
        diff_map(Map::empty(), bl, bl, 1, n) == Map::<u64, ChangedBlocks>::empty(),
        diff_map(Map::empty(), bl, bl, 2, n) == Map::<u64, ChangedBlocks>::empty(),
{
    assert(diff_map(Map::empty(), bl, bl, 0, n) =~= Map::new(
        |k: u64| k < n,
        |k: u64| ChangedBlocks { a: 0, bt: bl[k as int] },
    ));
    assert(diff_map(Map::empty(), bl, bl, 1, n) =~= Map::<u64, ChangedBlocks>::empty());
    assert(diff_map(Map::empty(), bl, bl, 2, n) =~= Map::<u64, ChangedBlocks>::empty());
}

/// An override whose block type is `NO_OVERRIDE` never reaches the output:
/// the block written for its cell is the tile map's.
pub proof fn lemma_sentinel_not_written(
    ov: Map<u64, ChangedBlocks>,
    tm: Seq<u8>,
    bl: Seq<u8>,
    opt: u8,
    n: int,
    k: u64,
)
    requires
        ov.contains_key(k),
        ov[k].bt == NO_OVERRIDE,
        diff_map(ov, tm, bl, opt, n).contains_key(k),
    ensures
        diff_map(ov, tm, bl, opt, n)[k].bt == tm[k as int],
{
}

/// The two JSON documents stored for a save: the world, encoded with the
/// policy that writes forced or differing cells against a tile map equal to
/// the generated terrain `baseline`, and the settings.
pub fn serialize_data(data: Data, baseline: &Vec<u8>) -> (r: [String; 2])
    requires
        valid_world_size(data.js_level.worldSize as int),
        baseline@.len() == cell_count(data.js_level.worldSize as int),
    ensures
        r[0]@ == encoded_level(
            data.js_level.worldSeed as int,
            data.js_level.changedBlocks@,
            data.js_level.worldSize as int,
            data.js_level.version as int,
            baseline@,
            baseline@,
            1,
        ),
        r[1]@ == settings_json(data.settings),
{
    let tile_map: Vec<u8> = baseline.clone();
    proof {
        assert(tile_map@ =~= baseline@);
    }
    let level_str: String = serialize_saved_game(data.js_level, tile_map, baseline, 1);
    let settings_str: String = serialize_settings(data.settings);
    [level_str, settings_str]
}

/// With a tile map equal to the baseline and no overrides, the policies that
/// write forced or differing cells write an empty changed-blocks body.
pub proof fn lemma_unchanged_world_text(bl: Seq<u8>, opt: u8, ws: int, n: int)
    requires
        opt == 1 || opt == 2,
        bl.len() >= n,
    ensures
        entries_text(Map::empty(), bl, bl, opt, ws, n) == Seq::<char>::empty(),
    decreases n,
{
    if n > 0 {
        lemma_unchanged_world_text(bl, opt, ws, n - 1);
    }
}


proof fn lemma_coordinates(ws: int, j: int)
    requires
        valid_world_size(ws),
        0 <= j < cell_count(ws),
    ensures
        0 <= j % ws < ws,
        0 <= (j / ws) % ws < ws,
        0 <= j / (ws * ws) < HEIGHT,
        j == (j / (ws * ws)) * ws * ws + ((j / ws) % ws) * ws + j % ws,
{
    let x = j % ws;
    let q = j / ws;
    vstd::arithmetic::div_mod::lemma_fundamental_div_mod(j, ws);
    vstd::arithmetic::div_mod::lemma_fundamental_div_mod(q, ws);
    vstd::arithmetic::div_mod::lemma_div_denominator(j, ws, ws);
    let y = j / (ws * ws);
    let z = q % ws;
    assert(q / ws == y);
    assert(q >= 0) by {
        vstd::arithmetic::div_mod::lemma_div_pos_is_pos(j, ws);
    }
    assert(j == y * ws * ws + z * ws + x) by (nonlinear_arith)
        requires j == ws * q + x, q == ws * y + z;
    assert(0 <= y < HEIGHT) by (nonlinear_arith)
        requires j == y * ws * ws + z * ws + x, 0 <= z, 0 <= x, 0 <= q, q == ws * y + z, z < ws, j < ws * ws * 64, ws > 0;
}

/// The parts of a position key: `p`, the digits of `x`, `_`, those of `y`,
/// `_`, those of `z`.
proof fn lemma_key_parts(ws: int, j: int)
    requires
        valid_world_size(ws),
        0 <= j < cell_count(ws),
    ensures
        ({
            let kt = key_text(ws, j);
            let dx = dec((j % ws) as nat);
            let dy = dec((j / (ws * ws)) as nat);
            let dz = dec(((j / ws) % ws) as nat);
            let sep1 = 1 + dx.len() as int;
            let sep2 = sep1 + 1 + dy.len() as int;
            &&& 1 <= dx.len() <= 3 && 1 <= dy.len() <= 3 && 1 <= dz.len() <= 3
            &&& kt.len() == sep2 + 1 + dz.len()
            &&& kt[0] == 'p'
            &&& kt[sep1] == '_'
            &&& kt[sep2] == '_'
            &&& kt.subrange(1, sep1) == dx
            &&& kt.subrange(sep1 + 1, sep2) == dy
            &&& kt.subrange(sep2 + 1, kt.len() as int) == dz
            &&& value_of(dx) == j % ws && value_of(dy) == j / (ws * ws) && value_of(dz) == (j / ws)
                % ws
            &&& all_digits(dx) && all_digits(dy) && all_digits(dz)
        }),
{
    lemma_coordinates(ws, j);
    let dx = dec((j % ws) as nat);
    let dy = dec((j / (ws * ws)) as nat);
    let dz = dec(((j / ws) % ws) as nat);
    lemma_dec_facts((j % ws) as nat);
    lemma_dec_facts((j / (ws * ws)) as nat);
    lemma_dec_facts(((j / ws) % ws) as nat);
    reveal_strlit("p");
    reveal_strlit("_");
    let kt = key_text(ws, j);
    let sep1 = 1 + dx.len() as int;
    let sep2 = sep1 + 1 + dy.len() as int;
    assert(kt =~= seq!['p'] + dx + seq!['_'] + dy + seq!['_'] + dz);
    assert(kt.subrange(1, sep1) =~= dx);
    assert(kt.subrange(sep1 + 1, sep2) =~= dy);
    assert(kt.subrange(sep2 + 1, kt.len() as int) =~= dz);
}

/// The flat index of the cell whose position key is `key`, in a world of
/// width `world_size`; none when `key` is no cell's key.
pub fn position_index(key: &str, world_size: i32) -> (r: Option<u64>)
    requires
        valid_world_size(world_size as int),
    ensures
        match r {
            Some(i) => i < cell_count(world_size as int) && key@ == key_text(world_size as int, i as int),
            None => forall|i: u64|
                i < cell_count(world_size as int) ==> key@ != #[trigger] key_text(world_size as int, i as int),
        },
{
    let ws: u64 = world_size as u64;
    let cs: Vec<char> = chars_of(key);
    let ghost n = cell_count(ws as int);
    let ghost found = exists|j: u64| j < n && cs@ == #[trigger] key_text(ws as int, j as int);
    let ghost jw: u64 = if found { choose|j: u64| j < n && cs@ == #[trigger] key_text(ws as int, j as int) } else { 0 };
    proof {
        if found {
            lemma_key_parts(ws as int, jw as int);
            lemma_coordinates(ws as int, jw as int);
        }
        assert(ws * ws <= 262144) by (nonlinear_arith)
            requires ws <= 512;
    }
    if cs.len() < 1 || cs[0] != 'p' {
        return None;
    }
    let sep1: usize = find_underscore(&cs, 1);
    if sep1 == cs.len() {
        return None;
    }
    let sep2: usize = find_underscore(&cs, sep1 + 1);
    if sep2 == cs.len() {
        return None;
    }
    proof {
        if found {
            let wsi = ws as int;
            let ji = jw as int;
            let dx = dec((ji % wsi) as nat);
            let dy = dec((ji / (wsi * wsi)) as nat);
            let e1 = 1 + dx.len() as int;
            let e2 = e1 + 1 + dy.len() as int;
            assert(all_digits(dx));
            if sep1 < e1 {
                assert(cs@.subrange(1, e1)[sep1 - 1] == cs@[sep1 as int]);
            }
            assert(sep1 == e1);
            if sep2 < e2 {
                assert(cs@.subrange(sep1 + 1, e2)[sep2 - sep1 - 1] == cs@[sep2 as int]);
            }
            assert(sep2 == e2);
        }
    }
    let x: u64 = match run_value(&cs, 1, sep1) {
        Some(v) => v,
        None => return None,
    };
    let y: u64 = match run_value(&cs, sep1 + 1, sep2) {
        Some(v) => v,
        None => return None,
    };
    let z: u64 = match run_value(&cs, sep2 + 1, cs.len()) {
        Some(v) => v,
        None => return None,
    };
    if x >= ws || y >= HEIGHT || z >= ws {
        return None;
    }
    proof {
        assert(y * ws * ws + z * ws + x < ws * ws * 64) by (nonlinear_arith)
            requires x < ws, y < 64, z < ws, ws > 0;
        assert(y * ws <= 64 * 512 && y * ws * ws <= 64 * 512 * 512 && z * ws <= 512 * 512) by (nonlinear_arith)
            requires y < 64, z < ws, ws <= 512;
    }
    let i: u64 = y * ws * ws + z * ws + x;
    proof {
        if found {
            lemma_coordinates(ws as int, jw as int);
            assert(i == jw);
        }
        lemma_index_coordinates(ws as int, x as int, y as int, z as int);
    }
    let mut canon: Vec<char> = Vec::new();
    push_key(&mut canon, ws, i);
    if same_chars(&canon, &cs) {
        Some(i)
    } else {
        None
    }
}

proof fn lemma_index_coordinates(ws: int, x: int, y: int, z: int)
    requires
        ws > 0,
        0 <= x < ws,
        0 <= z < ws,
        0 <= y,
    ensures
        ({
            let i = y * ws * ws + z * ws + x;
            &&& i % ws == x
            &&& (i / ws) % ws == z
            &&& i / (ws * ws) == y
        }),
{
    let i = y * ws * ws + z * ws + x;
    let q = y * ws + z;
    assert(i == q * ws + x) by (nonlinear_arith)
        requires i == y * ws * ws + z * ws + x, q == y * ws + z;
    vstd::arithmetic::div_mod::lemma_fundamental_div_mod_converse(i, ws, q, x);
    vstd::arithmetic::div_mod::lemma_fundamental_div_mod_converse(q, ws, y, z);
    vstd::arithmetic::div_mod::lemma_div_denominator(i, ws, ws);
}


/// The position key `p{x}_{y}_{z}` of cell `i`.
pub fn position_key(world_size: i32, i: u64) -> (r: String)
    requires
        valid_world_size(world_size as int),
    ensures
        r@ == key_text(world_size as int, i as int),
{
    let ws: u64 = world_size as u64;
    proof {
        assert(ws * ws <= 262144) by (nonlinear_arith)
            requires ws <= 512;
    }
    let mut out: Vec<char> = Vec::new();
    push_key(&mut out, ws, i);
    proof {
        assert(out@ =~= key_text(world_size as int, i as int));
    }
    string_from(&out)
}

} // verus!
