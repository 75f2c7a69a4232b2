use vstd::prelude::*;
use crate::coord::{coord_in_extent, in_extent};
use crate::level::{Level, LevelView};
use crate::sprite::{Position, Sprite};

verus! {

// A level file, all numbers big-endian:
//   width u32, height u32, spawn x f64, spawn y f64,
//   width * height tile bytes (row after row),
//   sprite count u32, then per sprite: x f64, y f64, type u8.

pub open spec fn be_u32(v: u32) -> Seq<u8> {
    seq![(v >> 24u32) as u8, (v >> 16u32) as u8, (v >> 8u32) as u8, v as u8]
}

pub open spec fn be_u64(v: u64) -> Seq<u8> {
    seq![
        (v >> 56u64) as u8,
        (v >> 48u64) as u8,
        (v >> 40u64) as u8,
        (v >> 32u64) as u8,
        (v >> 24u64) as u8,
        (v >> 16u64) as u8,
        (v >> 8u64) as u8,
        v as u8,
    ]
}

/// The big-endian `u32` in the four bytes from `at`.
pub open spec fn read_u32(b: Seq<u8>, at: int) -> u32 {
    ((b[at] as u32) << 24u32) | ((b[at + 1] as u32) << 16u32) | ((b[at + 2] as u32) << 8u32) | (
    b[at + 3] as u32)
}

/// The big-endian `u64` in the eight bytes from `at`.
pub open spec fn read_u64(b: Seq<u8>, at: int) -> u64 {
    ((b[at] as u64) << 56u64) | ((b[at + 1] as u64) << 48u64) | ((b[at + 2] as u64) << 40u64) | ((
    b[at + 3] as u64) << 32u64) | ((b[at + 4] as u64) << 24u64) | ((b[at + 5] as u64) << 16u64) | ((
    b[at + 6] as u64) << 8u64) | (b[at + 7] as u64)
}

/// Bytes of one sprite record.
pub open spec fn sprite_bytes(s: Sprite) -> Seq<u8> {
    be_u64(s.pos.x) + be_u64(s.pos.y) + seq![s.sprite_type]
}

/// Bytes of the sprite records, one after the other.
pub open spec fn sprites_bytes(s: Seq<Sprite>) -> Seq<u8>
    decreases s.len(),
{
    if s.len() == 0 {
        Seq::empty()
    } else {
        sprites_bytes(s.drop_last()) + sprite_bytes(s.last())
    }
}

/// The file that stores a level.
pub open spec fn level_bytes(v: LevelView) -> Seq<u8> {
    be_u32(v.width) + be_u32(v.height) + be_u64(v.spawnx) + be_u64(v.spawny) + v.cells + be_u32(
        v.sprites.len() as u32,
    ) + sprites_bytes(v.sprites)
}

/// The sprite record that starts at `at`.
pub open spec fn record_at(b: Seq<u8>, at: int) -> Sprite {
    Sprite { pos: Position { x: read_u64(b, at), y: read_u64(b, at + 8) }, sprite_type: b[at + 16] }
}

/// The first `n` sprite records from `at`.
pub open spec fn records(b: Seq<u8>, at: int, n: nat) -> Seq<Sprite>
    decreases n,
{
    if n == 0 {
        Seq::empty()
    } else {
        records(b, at, (n - 1) as nat).push(record_at(b, at + 17 * (n - 1)))
    }
}

/// A sprite is kept when it stands in `[0, w) x [0, h)`.
pub open spec fn sprite_in_level(s: Sprite, w: u32, h: u32) -> bool {
    in_extent(s.pos.x, w as int) && in_extent(s.pos.y, h as int)
}

pub open spec fn kept_in(w: u32, h: u32) -> spec_fn(Sprite) -> bool {
    |s: Sprite| sprite_in_level(s, w, h)
}

/// Where the sprite count stands in a file whose header is `b`.
pub open spec fn count_offset(b: Seq<u8>) -> int {
    24 + read_u32(b, 0) * read_u32(b, 4)
}

/// The level that a file holds; `None` when the file ends early.
/// Bytes after the last sprite record are not read.
pub open spec fn decoded(b: Seq<u8>) -> Option<LevelView> {
    let w = read_u32(b, 0);
    let h = read_u32(b, 4);
    let t = count_offset(b);
    if b.len() < 24 || b.len() < t + 4 || b.len() < t + 4 + 17 * read_u32(b, t) {
        None
    } else {
        Some(
            LevelView {
                width: w,
                height: h,
                cells: b.subrange(24, t),
                spawnx: read_u64(b, 8),
                spawny: read_u64(b, 16),
                sprites: records(b, t + 4, read_u32(b, t) as nat).filter(kept_in(w, h)),
            },
        )
    }
}

/// Why a level file could not be read.
#[derive(Clone, Copy, Debug, PartialEq, Eq, Structural)]
pub enum LevelFileError {
    /// The file ends before the header, the grid, the sprite count or one
    /// of the sprite records is complete.
    UnexpectedEnd,
}

impl LevelFileError {
    /// The text that reports the error.
    pub fn message(&self) -> (r: String)
        ensures
            r@ == "failed to fill whole buffer"@,
    {
        String::from_str("failed to fill whole buffer")
    }
}

fn push_u32(out: &mut Vec<u8>, v: u32)
    ensures
        final(out)@ == old(out)@ + be_u32(v),
{
    out.push((v >> 24u32) as u8);
    out.push((v >> 16u32) as u8);
    out.push((v >> 8u32) as u8);
    out.push(v as u8);
    assert(out@ =~= old(out)@ + be_u32(v));
}

fn push_u64(out: &mut Vec<u8>, v: u64)
    ensures
        final(out)@ == old(out)@ + be_u64(v),
{
    out.push((v >> 56u64) as u8);
    out.push((v >> 48u64) as u8);
    out.push((v >> 40u64) as u8);
    out.push((v >> 32u64) as u8);
    out.push((v >> 24u64) as u8);
    out.push((v >> 16u64) as u8);
    out.push((v >> 8u64) as u8);
    out.push(v as u8);
    assert(out@ =~= old(out)@ + be_u64(v));
}

/// The bytes of the file that stores `level`.
pub fn encode_level(level: &Level) -> (r: Vec<u8>)
    requires
        level@.wf(),
        level@.sprites.len() <= u32::MAX,
    ensures
        r@ == level_bytes(level@),
{
    let mut out: Vec<u8> = Vec::new();
    push_u32(&mut out, level.width());
    push_u32(&mut out, level.height());
    push_u64(&mut out, level.spawnx());
    push_u64(&mut out, level.spawny());
    let cells: &[u8] = level.level_data_bytes();
    let ghost head = out@;
    let mut i: usize = 0;
    while i < cells.len()
        invariant
            i <= cells@.len(),
            out@ == head + cells@.subrange(0, i as int),
        decreases cells@.len() - i,
    {
        out.push(cells[i]);
        i = i + 1;
        assert(out@ =~= head + cells@.subrange(0, i as int));
    }
    assert(cells@.subrange(0, cells@.len() as int) =~= cells@);
    let sprites: &Vec<Sprite> = level.sprites();
    push_u32(&mut out, sprites.len() as u32);
    let ghost head = out@;
    let mut k: usize = 0;
    while k < sprites.len()
        invariant
            k <= level@.sprites.len(),
            sprites@ == level@.sprites,
            out@ == head + sprites_bytes(level@.sprites.subrange(0, k as int)),
        decreases level@.sprites.len() - k,
    {
        let s: Sprite = sprites[k];
        push_u64(&mut out, s.pos.x);
        push_u64(&mut out, s.pos.y);
        out.push(s.sprite_type);
        k = k + 1;
        let ghost pre = level@.sprites.subrange(0, k as int);
        assert(pre.drop_last() =~= level@.sprites.subrange(0, k - 1));
        assert(out@ =~= head + sprites_bytes(pre));
    }
    assert(level@.sprites.subrange(0, k as int) =~= level@.sprites);
    out
}

fn get_u32(b: &[u8], at: usize) -> (r: u32)
    requires
        at + 4 <= b@.len(),
    ensures
        r == read_u32(b@, at as int),
{
    ((b[at] as u32) << 24u32) | ((b[at + 1] as u32) << 16u32) | ((b[at + 2] as u32) << 8u32) | (
    b[at + 3] as u32)
}

fn get_u64(b: &[u8], at: usize) -> (r: u64)
    requires
        at + 8 <= b@.len(),
    ensures
        r == read_u64(b@, at as int),
{
    ((b[at] as u64) << 56u64) | ((b[at + 1] as u64) << 48u64) | ((b[at + 2] as u64) << 40u64) | ((
    b[at + 3] as u64) << 32u64) | ((b[at + 4] as u64) << 24u64) | ((b[at + 5] as u64) << 16u64) | ((
    b[at + 6] as u64) << 8u64) | (b[at + 7] as u64)
}

proof fn lemma_filter_push(s: Seq<Sprite>, x: Sprite, p: spec_fn(Sprite) -> bool)
    ensures
        s.push(x).filter(p) == (if p(x) {
            s.filter(p).push(x)
        } else {
            s.filter(p)
        }),
{
    reveal(Seq::filter);
    assert(s.push(x).drop_last() =~= s);
}

/// Reads a level from the bytes of its file. Sprites outside the grid
/// are left out; a file that ends early is an error.
pub fn decode_level(bytes: &[u8]) -> (r: Result<Level, LevelFileError>)
    ensures
        match r {
            Ok(l) => decoded(bytes@) == Some(l@) && l@.wf(),
            Err(e) => decoded(bytes@).is_none() && e == LevelFileError::UnexpectedEnd,
        },
{
    let n: usize = bytes.len();
    if n < 24 {
        return Err(LevelFileError::UnexpectedEnd);
    }
    let w: u32 = get_u32(bytes, 0);
    let h: u32 = get_u32(bytes, 4);
    let spawnx: u64 = get_u64(bytes, 8);
    let spawny: u64 = get_u64(bytes, 16);
    assert(w * h <= 0xffff_fffe_0000_0001) by (nonlinear_arith)
        requires
            w <= 0xffff_ffff,
            h <= 0xffff_ffff,
    ;
    let area: u64 = (w as u64) * (h as u64);
    let rest: u64 = (n - 24) as u64;
    if rest < area || rest - area < 4 {
        return Err(LevelFileError::UnexpectedEnd);
    }
    let t: usize = 24 + area as usize;
    let mut cells: Vec<u8> = Vec::new();
    let mut i: usize = 24;
    while i < t
        invariant
            24 <= i <= t,
            t <= n,
            n == bytes@.len(),
            cells@ == bytes@.subrange(24, i as int),
        decreases t - i,
    {
        cells.push(bytes[i]);
        i = i + 1;
        assert(cells@ =~= bytes@.subrange(24, i as int));
    }
    let count: u32 = get_u32(bytes, t);
    let avail: u64 = (n - t - 4) as u64;
    if avail < 17 * (count as u64) {
        return Err(LevelFileError::UnexpectedEnd);
    }
    let base: usize = t + 4;
    let mut sprites: Vec<Sprite> = Vec::new();
    let mut k: u32 = 0;
    while k < count
        invariant
            k <= count,
            base + 17 * count <= n,
            n == bytes@.len(),
            sprites@ == records(bytes@, base as int, k as nat).filter(kept_in(w, h)),
        decreases count - k,
    {
        let at: usize = base + 17 * (k as usize);
        let x: u64 = get_u64(bytes, at);
        let y: u64 = get_u64(bytes, at + 8);
        let s: Sprite = Sprite { pos: Position { x, y }, sprite_type: bytes[at + 16] };
        assert(s == record_at(bytes@, at as int));
        proof {
            let prev = records(bytes@, base as int, k as nat);
            assert(records(bytes@, base as int, (k + 1) as nat) == prev.push(s));
            lemma_filter_push(prev, s, kept_in(w, h));
        }
        if coord_in_extent(x, w) && coord_in_extent(y, h) {
            sprites.push(s);
        }
        k = k + 1;
    }
    assert(cells@.len() == w * h);
    Ok(Level::from_parts(w, h, cells, spawnx, spawny, sprites))
}

proof fn lemma_read_u32_at(b: Seq<u8>, at: int, v: u32)
    requires
        0 <= at,
        at + 4 <= b.len(),
        b.subrange(at, at + 4) == be_u32(v),
    ensures
        read_u32(b, at) == v,
{
    let s = b.subrange(at, at + 4);
    assert(b[at] == s[0] && b[at + 1] == s[1] && b[at + 2] == s[2] && b[at + 3] == s[3]);
    let (b0, b1, b2, b3) = (s[0], s[1], s[2], s[3]);
    assert(((b0 as u32) << 24u32) | ((b1 as u32) << 16u32) | ((b2 as u32) << 8u32) | (b3 as u32)
        == v) by (bit_vector)
        requires
            b0 == (v >> 24u32) as u8,
            b1 == (v >> 16u32) as u8,
            b2 == (v >> 8u32) as u8,
            b3 == v as u8,
    ;
}

proof fn lemma_read_u64_at(b: Seq<u8>, at: int, v: u64)
    requires
        0 <= at,
        at + 8 <= b.len(),
        b.subrange(at, at + 8) == be_u64(v),
    ensures
        read_u64(b, at) == v,
{
    let s = b.subrange(at, at + 8);
    assert(b[at] == s[0] && b[at + 1] == s[1] && b[at + 2] == s[2] && b[at + 3] == s[3]);
    assert(b[at + 4] == s[4] && b[at + 5] == s[5] && b[at + 6] == s[6] && b[at + 7] == s[7]);
    let (b0, b1, b2, b3, b4, b5, b6, b7) = (s[0], s[1], s[2], s[3], s[4], s[5], s[6], s[7]);
    assert(((b0 as u64) << 56u64) | ((b1 as u64) << 48u64) | ((b2 as u64) << 40u64) | ((
    b3 as u64) << 32u64) | ((b4 as u64) << 24u64) | ((b5 as u64) << 16u64) | ((b6 as u64)
        << 8u64) | (b7 as u64) == v) by (bit_vector)
        requires
            b0 == (v >> 56u64) as u8,
            b1 == (v >> 48u64) as u8,
            b2 == (v >> 40u64) as u8,
            b3 == (v >> 32u64) as u8,
            b4 == (v >> 24u64) as u8,
            b5 == (v >> 16u64) as u8,
            b6 == (v >> 8u64) as u8,
            b7 == v as u8,
    ;
}

proof fn lemma_sprites_bytes(s: Seq<Sprite>, i: int)
    requires
        0 <= i < s.len(),
    ensures
        sprites_bytes(s).len() == 17 * s.len(),
        sprites_bytes(s).subrange(17 * i, 17 * i + 17) == sprite_bytes(s[i]),
    decreases s.len(),
{
    let pre = s.drop_last();
    if i < s.len() - 1 {
        lemma_sprites_bytes(pre, i);
        assert(sprites_bytes(s).subrange(17 * i, 17 * i + 17) =~= sprites_bytes(pre).subrange(
            17 * i,
            17 * i + 17,
        ));
    } else {
        lemma_sprites_bytes_len(pre);
        assert(sprites_bytes(s).subrange(17 * i, 17 * i + 17) =~= sprite_bytes(s[i]));
    }
}

proof fn lemma_sprites_bytes_len(s: Seq<Sprite>)
    ensures
        sprites_bytes(s).len() == 17 * s.len(),
    decreases s.len(),
{
    if s.len() > 0 {
        lemma_sprites_bytes_len(s.drop_last());
    }
}

proof fn lemma_records_of(b: Seq<u8>, at: int, s: Seq<Sprite>, k: nat)
    requires
        0 <= at,
        k <= s.len(),
        at + 17 * s.len() <= b.len(),
        b.subrange(at, at + 17 * s.len()) == sprites_bytes(s),
    ensures
        records(b, at, k) == s.subrange(0, k as int),
    decreases k,
{
    if k > 0 {
        let i = k - 1;
        lemma_records_of(b, at, s, i as nat);
        lemma_sprites_bytes(s, i);
        let r = at + 17 * i;
        let rec = b.subrange(r, r + 17);
        assert(rec =~= sprites_bytes(s).subrange(17 * i, 17 * i + 17));
        let sb = sprite_bytes(s[i]);
        assert(b.subrange(r, r + 8) =~= be_u64(s[i].pos.x)) by {
            assert(b.subrange(r, r + 8) =~= sb.subrange(0, 8));
        }
        assert(b.subrange(r + 8, r + 16) =~= be_u64(s[i].pos.y)) by {
            assert(b.subrange(r + 8, r + 16) =~= sb.subrange(8, 16));
        }
        lemma_read_u64_at(b, r, s[i].pos.x);
        lemma_read_u64_at(b, r + 8, s[i].pos.y);
        assert(b[r + 16] == sb[16]);
        assert(record_at(b, r) == s[i]);
        assert(s.subrange(0, k as int) =~= s.subrange(0, i).push(s[i]));
    }
}

/// Reading back the bytes that store a level gives its grid and spawn
/// point unchanged, and those of its sprites that stand inside the grid,
/// in their order.
pub proof fn lemma_decode_encoded(v: LevelView)
    requires
        v.wf(),
        v.sprites.len() <= u32::MAX,
    ensures
        decoded(level_bytes(v)) == Some(
            LevelView { sprites: v.sprites.filter(kept_in(v.width, v.height)), ..v },
        ),
{
    let b = level_bytes(v);
    let c = v.sprites.len();
    let t = 24 + v.width * v.height;
    lemma_sprites_bytes_len(v.sprites);
    assert(b.len() == t + 4 + 17 * c);
    assert(b.subrange(0, 4) =~= be_u32(v.width));
    assert(b.subrange(4, 8) =~= be_u32(v.height));
    assert(b.subrange(8, 16) =~= be_u64(v.spawnx));
    assert(b.subrange(16, 24) =~= be_u64(v.spawny));
    lemma_read_u32_at(b, 0, v.width);
    lemma_read_u32_at(b, 4, v.height);
    lemma_read_u64_at(b, 8, v.spawnx);
    lemma_read_u64_at(b, 16, v.spawny);
    assert(count_offset(b) == t);
    assert(b.subrange(t, t + 4) =~= be_u32(c as u32));
    lemma_read_u32_at(b, t, c as u32);
    assert(b.subrange(24, t) =~= v.cells);
    assert(b.subrange(t + 4, t + 4 + 17 * c) =~= sprites_bytes(v.sprites));
    lemma_records_of(b, t + 4, v.sprites, c);
    assert(v.sprites.subrange(0, c as int) =~= v.sprites);
}

/// When every sprite stands inside the grid, reading back the bytes that
/// store a level gives the level itself.
pub proof fn lemma_round_trip(v: LevelView)
    requires
        v.wf(),
        v.sprites.len() <= u32::MAX,
        forall|i: int| 0 <= i < v.sprites.len() ==> sprite_in_level(#[trigger] v.sprites[i], v.width, v.height),
    ensures
        decoded(level_bytes(v)) == Some(v),
{
    lemma_decode_encoded(v);
    lemma_filter_all(v.sprites, kept_in(v.width, v.height));
}

proof fn lemma_filter_all(s: Seq<Sprite>, p: spec_fn(Sprite) -> bool)
    requires
        forall|i: int| 0 <= i < s.len() ==> p(#[trigger] s[i]),
    ensures
        s.filter(p) == s,
    decreases s.len(),
{
    reveal(Seq::filter);
    if s.len() > 0 {
        lemma_filter_all(s.drop_last(), p);
        assert(s.drop_last().push(s.last()) =~= s);
    }
}

/// A sprite that stands outside the grid is not among those read back
/// from the bytes that store the level.
pub proof fn lemma_outside_sprite_dropped(v: LevelView, s: Sprite)
    requires
        v.wf(),
        v.sprites.len() <= u32::MAX,
        !sprite_in_level(s, v.width, v.height),
    ensures
        decoded(level_bytes(v)) is Some,
        !decoded(level_bytes(v))->0.sprites.contains(s),
{
    lemma_decode_encoded(v);
    let p = kept_in(v.width, v.height);
    broadcast use vstd::seq_lib::group_filter_ensures;
    if decoded(level_bytes(v))->0.sprites.contains(s) {
        let i = choose|i: int| 0 <= i < v.sprites.filter(p).len() && v.sprites.filter(p)[i] == s;
        assert(p(v.sprites.filter(p)[i]));
    }
}

} // verus!
