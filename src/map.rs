use vstd::prelude::*;

use vstd::string::StringSliceAdditionalSpecFns;

use crate::component::{BoxColor, BoxSpot, EntityRow, GameplayState, Player, Position, Tags};
use crate::entity::{
    box_images, box_tags, create_box, create_box_spot, create_floor, create_player, create_wall, image_paths,
    no_tags, player_tags, spot_image, spot_tags, wall_tags,
};
use crate::grid::{at_cell, rows_compatible, same_cell};
use crate::level::Level;
use crate::store::MAX_ENTITIES;

verus! {

/// What one symbol of a level layout stands for.
#[derive(Clone, Copy, PartialEq, Eq, Structural, Debug)]
pub enum Tile {
    /// `N`: no entity.
    Nothing,
    /// `.`: floor.
    Floor,
    /// `W`: floor and wall.
    Wall,
    /// `P`: floor and player.
    Player,
    /// `RB`, `BB`: floor and a box.
    Box(BoxColor),
    /// `RS`, `BS`: floor and a box spot.
    Spot(BoxColor),
}

/// A token of a layout with its column and row.
pub type Token = (int, int, Seq<u8>);

/// Lexer state: tokens so far, the token being read, its column and row, and
/// whether the current line has a token yet.
pub type LexState = (Seq<Token>, Seq<u8>, int, int, bool);

pub open spec fn is_blank(b: u8) -> bool {
    b == 32 || b == 9 || b == 13
}

pub open spec fn flush(st: LexState) -> LexState {
    if st.1.len() > 0 {
        (st.0.push((st.2, st.3, st.1)), Seq::empty(), st.2 + 1, st.3, true)
    } else {
        st
    }
}

pub open spec fn lex_step(st: LexState, b: u8) -> LexState {
    if b == 10 {
        let f = flush(st);
        if f.4 { (f.0, f.1, 0, f.3 + 1, false) } else { f }
    } else if is_blank(b) {
        flush(st)
    } else {
        (st.0, st.1.push(b), st.2, st.3, st.4)
    }
}

pub open spec fn lex(bs: Seq<u8>) -> LexState
    decreases bs.len(),
{
    if bs.len() == 0 {
        (Seq::empty(), Seq::empty(), 0, 0, false)
    } else {
        lex_step(lex(bs.drop_last()), bs.last())
    }
}

/// The symbols of a layout: words separated by blanks, on lines separated by
/// newlines; lines without a word do not count as rows.
pub open spec fn layout_tokens(bs: Seq<u8>) -> Seq<Token> {
    flush(lex(bs)).0
}

/// Symbol `a` comes before cell `(x, y)` in reading order.
pub open spec fn cell_before(a: Token, x: int, y: int) -> bool {
    a.1 < y || (a.1 == y && a.0 < x)
}

/// The symbols stand on cells in strictly increasing reading order.
pub open spec fn cells_ordered(t: Seq<Token>) -> bool {
    forall|i: int, j: int| 0 <= i < j < t.len() ==> #[trigger] cell_before(t[i], t[j].0, t[j].1)
}

proof fn lemma_flush_ordered(st: LexState)
    requires
        cells_ordered(st.0),
        forall|i: int| 0 <= i < st.0.len() ==> cell_before(#[trigger] st.0[i], st.2, st.3),
    ensures
        cells_ordered(flush(st).0),
        forall|i: int| 0 <= i < flush(st).0.len() ==> cell_before(#[trigger] flush(st).0[i], flush(st).2, flush(st).3),
        flush(st).3 == st.3,
{
    if st.1.len() > 0 {
        let t = flush(st).0;
        assert forall|i: int, j: int| 0 <= i < j < t.len() implies #[trigger] cell_before(t[i], t[j].0, t[j].1) by {
            if j == st.0.len() {
                assert(t[i] == st.0[i]);
            } else {
                assert(t[i] == st.0[i] && t[j] == st.0[j]);
            }
        }
        assert forall|i: int| 0 <= i < t.len() implies cell_before(#[trigger] t[i], flush(st).2, flush(st).3) by {
            if i < st.0.len() {
                assert(t[i] == st.0[i]);
            }
        }
    }
}

/// The lexer reads symbols in reading order, each before its current cell.
proof fn lemma_lex_ordered(bs: Seq<u8>)
    ensures
        cells_ordered(lex(bs).0),
        forall|i: int| 0 <= i < lex(bs).0.len() ==> cell_before(#[trigger] lex(bs).0[i], lex(bs).2, lex(bs).3),
    decreases bs.len(),
{
    if bs.len() > 0 {
        lemma_lex_ordered(bs.drop_last());
        let st = lex(bs.drop_last());
        lemma_flush_ordered(st);
        let b = bs.last();
        if b == 10 {
            let f = flush(st);
            if f.4 {
                assert forall|i: int| 0 <= i < f.0.len() implies cell_before(#[trigger] f.0[i], 0, f.3 + 1) by {
                    assert(cell_before(f.0[i], f.2, f.3));
                }
            }
        }
    }
}

/// The symbols of a layout stand on distinct cells, in reading order.
pub proof fn lemma_layout_ordered(bs: Seq<u8>)
    ensures
        cells_ordered(layout_tokens(bs)),
{
    lemma_lex_ordered(bs);
    lemma_flush_ordered(lex(bs));
}

/// The tile a symbol stands for, if it is one.
pub open spec fn tile_of(t: Seq<u8>) -> Option<Tile> {
    if t == seq![46u8] {
        Some(Tile::Floor)
    } else if t == seq![87u8] {
        Some(Tile::Wall)
    } else if t == seq![80u8] {
        Some(Tile::Player)
    } else if t == seq![78u8] {
        Some(Tile::Nothing)
    } else if t == seq![66u8, 66u8] {
        Some(Tile::Box(BoxColor::Blue))
    } else if t == seq![82u8, 66u8] {
        Some(Tile::Box(BoxColor::Red))
    } else if t == seq![66u8, 83u8] {
        Some(Tile::Spot(BoxColor::Blue))
    } else if t == seq![82u8, 83u8] {
        Some(Tile::Spot(BoxColor::Red))
    } else {
        None
    }
}

fn tile_of_bytes(t: &Vec<u8>) -> (r: Option<Tile>)
    ensures
        r == tile_of(t@),
{
    let n = t.len();
    if n == 1 {
        let c = t[0];
        proof {
            assert(t@ =~= seq![c]);
        }
        if c == 46 { Some(Tile::Floor) } else if c == 87 { Some(Tile::Wall) } else if c == 80 {
            Some(Tile::Player)
        } else if c == 78 { Some(Tile::Nothing) } else { None }
    } else if n == 2 {
        let a = t[0];
        let b = t[1];
        proof {
            assert(t@ =~= seq![a, b]);
        }
        if a == 66 && b == 66 {
            Some(Tile::Box(BoxColor::Blue))
        } else if a == 82 && b == 66 {
            Some(Tile::Box(BoxColor::Red))
        } else if a == 66 && b == 83 {
            Some(Tile::Spot(BoxColor::Blue))
        } else if a == 82 && b == 83 {
            Some(Tile::Spot(BoxColor::Red))
        } else {
            None
        }
    } else {
        proof {
            assert(t@.len() != 1 && t@.len() != 2);
            assert(seq![46u8].len() == 1 && seq![66u8, 66u8].len() == 2);
        }
        None
    }
}

pub open spec fn token_view(t: (usize, usize, Vec<u8>)) -> Token {
    (t.0 as int, t.1 as int, t.2@)
}

/// Splits the text of a layout into its symbols with their columns and rows.
pub fn layout_symbols(text: &str) -> (r: Vec<(usize, usize, Vec<u8>)>)
    ensures
        r@.map_values(|t: (usize, usize, Vec<u8>)| token_view(t)) == layout_tokens(text.spec_bytes()),
{
    let bytes = text.as_bytes();
    let ghost bs = bytes@;
    let mut toks: Vec<(usize, usize, Vec<u8>)> = Vec::new();
    let mut cur: Vec<u8> = Vec::new();
    let mut x: usize = 0;
    let mut y: usize = 0;
    let mut seen: bool = false;
    let mut i: usize = 0;
    while i < bytes.len()
        invariant
            bs == bytes@,
            i <= bs.len(),
            x <= i && y <= i,
            ({
                let st = lex(bs.subrange(0, i as int));
                &&& toks@.map_values(|t: (usize, usize, Vec<u8>)| token_view(t)) == st.0
                &&& cur@ == st.1
                &&& x == st.2
                &&& y == st.3
                &&& seen == st.4
            }),
        decreases bs.len() - i,
    {
        let b = bytes[i];
        proof {
            let p = bs.subrange(0, i + 1);
            assert(p.drop_last() =~= bs.subrange(0, i as int));
            assert(p.last() == b);
        }
        if b == 10 || b == 32 || b == 9 || b == 13 {
            if cur.len() > 0 {
                let mut tok: Vec<u8> = Vec::new();
                std::mem::swap(&mut tok, &mut cur);
                let ghost before = toks@;
                toks.push((x, y, tok));
                proof {
                    assert(toks@.map_values(|t: (usize, usize, Vec<u8>)| token_view(t)) =~= before.map_values(
                        |t: (usize, usize, Vec<u8>)| token_view(t),
                    ).push((x as int, y as int, tok@)));
                }
                x = x + 1;
                seen = true;
            }
            if b == 10 && seen {
                x = 0;
                y = y + 1;
                seen = false;
            }
        } else {
            cur.push(b);
        }
        i += 1;
    }
    proof {
        assert(bs.subrange(0, bs.len() as int) =~= bs);
    }
    if cur.len() > 0 {
        let ghost before = toks@;
        toks.push((x, y, cur));
        proof {
            assert(toks@.map_values(|t: (usize, usize, Vec<u8>)| token_view(t)) =~= before.map_values(
                |t: (usize, usize, Vec<u8>)| token_view(t),
            ).push((x as int, y as int, cur@)));
        }
    }
    toks
}

/// Why a layout cannot be loaded.
#[derive(Clone, Copy, PartialEq, Eq, Structural, Debug)]
pub enum LoadError {
    /// A symbol is none of the known ones.
    UnrecognizedSymbol,
    /// A column or row lies beyond 254, or the layout has too many entities.
    TooLarge,
    /// Two occupants that cannot share a cell, or a second player.
    Conflict,
    /// The layout has no player.
    NoPlayer,
}

/// The tags of the entity that a tile adds to its floor (none for a floor).
pub open spec fn tile_tags(t: Tile) -> Tags {
    match t {
        Tile::Wall => wall_tags(),
        Tile::Player => player_tags(),
        Tile::Box(c) => box_tags(c),
        Tile::Spot(c) => spot_tags(c),
        _ => no_tags(),
    }
}

/// The draw depth of that entity: 5 for a floor, 9 for a box spot, 10 else.
pub open spec fn tile_depth(t: Tile) -> int {
    match t {
        Tile::Floor => 5,
        Tile::Spot(_) => 9,
        _ => 10,
    }
}

/// The image paths of that entity.
pub open spec fn tile_images(t: Tile) -> Seq<Seq<char>> {
    match t {
        Tile::Floor => seq!["/images/floor.png"@],
        Tile::Wall => seq!["/images/wall.png"@],
        Tile::Player => seq!["/images/player_1.png"@, "/images/player_2.png"@, "/images/player_3.png"@],
        Tile::Box(c) => box_images(c),
        Tile::Spot(c) => seq![spot_image(c)],
        Tile::Nothing => Seq::empty(),
    }
}

/// Row `r` is the entity of tile `t` on `(x, y)`: its tags, depth and images.
pub open spec fn tile_row(r: EntityRow, t: Tile, x: int, y: int) -> bool {
    &&& at_cell(r, x, y)
    &&& r.tags == tile_tags(t)
    &&& r.position.z == tile_depth(t)
    &&& image_paths(r.renderable) == tile_images(t)
}

pub open spec fn has_tile_row(m: Map<u64, EntityRow>, t: Tile, x: int, y: int) -> bool {
    exists|id: u64| #[trigger] m.contains_key(id) && tile_row(m[id], t, x, y)
}

/// The entities of symbol `t` stand on its cell: a floor, and what the tile adds.
pub open spec fn cell_built(m: Map<u64, EntityRow>, t: Token) -> bool {
    &&& tile_of(t.2) is Some
    &&& tile_of(t.2).unwrap() != Tile::Nothing ==> has_tile_row(m, Tile::Floor, t.0, t.1) && has_tile_row(
        m,
        tile_of(t.2).unwrap(),
        t.0,
        t.1,
    )
}

/// Row `r` is the floor, or what the tile adds, of symbol `t`.
pub open spec fn row_of_symbol(r: EntityRow, t: Token) -> bool {
    &&& tile_of(t.2) is Some
    &&& tile_of(t.2).unwrap() != Tile::Nothing
    &&& tile_row(r, Tile::Floor, t.0, t.1) || tile_row(r, tile_of(t.2).unwrap(), t.0, t.1)
}

/// Entity `id` belongs to one of the first `j` symbols.
pub open spec fn from_token(m: Map<u64, EntityRow>, id: u64, toks: Seq<Token>, j: int) -> bool {
    exists|k: int| 0 <= k < j && #[trigger] row_of_symbol(m[id], toks[k])
}

/// No two entities share both a cell and their tags.
pub open spec fn one_per_kind(m: Map<u64, EntityRow>) -> bool {
    forall|a: u64, b: u64|
        #[trigger] m.contains_key(a) && #[trigger] m.contains_key(b) && a != b && same_cell(m[a], m[b]) ==> m[a].tags
            != m[b].tags
}

/// Adds the floor of a tile on the free cell `(x, y)` and the entity that the
/// tile puts on it.
fn build_cell(level: &mut Level, tile: Tile, x: u8, y: u8)
    requires
        old(level).wf(),
        old(level).rows().len() + 2 < MAX_ENTITIES,
        tile != Tile::Nothing,
        one_per_kind(old(level).rows()),
        forall|a: u64| #[trigger] old(level).rows().contains_key(a) ==> !at_cell(old(level).rows()[a], x as int, y as int),
        tile == Tile::Player ==> !old(level).has_player(),
    ensures
        final(level).wf(),
        one_per_kind(final(level).rows()),
        final(level).width == old(level).width && final(level).height == old(level).height,
        final(level).gameplay == old(level).gameplay && final(level).time == old(level).time,
        final(level).events.events@ == old(level).events.events@,
        final(level).rows().len() <= old(level).rows().len() + 2,
        forall|id: u64| #[trigger] old(level).rows().contains_key(id) ==> final(level).rows().contains_key(id)
            && final(level).rows()[id] == old(level).rows()[id],
        forall|id: u64| #[trigger] final(level).rows().contains_key(id) && !old(level).rows().contains_key(id)
            ==> tile_row(final(level).rows()[id], Tile::Floor, x as int, y as int) || tile_row(
            final(level).rows()[id],
            tile,
            x as int,
            y as int,
        ),
        has_tile_row(final(level).rows(), Tile::Floor, x as int, y as int),
        has_tile_row(final(level).rows(), tile, x as int, y as int),
        final(level).has_player() <==> (old(level).has_player() || tile == Tile::Player),
{
    let ghost m0 = level.rows();
    let pos = Position { x, y, z: 0 };
    let f = create_floor(level, &pos);
    let ghost m1 = level.rows();
    proof {
        assert(m1.dom() =~= m0.dom().insert(f));
        assert(m1.contains_key(f) && tile_row(m1[f], Tile::Floor, x as int, y as int));
        assert forall|a: u64, b: u64|
            #[trigger] m1.contains_key(a) && #[trigger] m1.contains_key(b) && a != b && same_cell(m1[a], m1[b])
            implies m1[a].tags != m1[b].tags by {
            if a != f && b != f {
                assert(m0.contains_key(a) && m0.contains_key(b));
            } else if a == f {
                assert(m0.contains_key(b));
            } else {
                assert(m0.contains_key(a));
            }
        }
        assert forall|a: u64| #[trigger] m1.contains_key(a) && a != f implies !at_cell(m1[a], x as int, y as int) by {
            assert(m0.contains_key(a));
        }
    }
    if tile == Tile::Floor {
        proof {
            if old(level).has_player() {
                let p = choose|p: u64| #[trigger] m0.contains_key(p) && m0[p].tags.player is Some;
                assert(m1.contains_key(p));
            }
            if level.has_player() {
                let p = choose|p: u64| #[trigger] m1.contains_key(p) && m1[p].tags.player is Some;
                assert(m0.contains_key(p));
            }
        }
        return;
    }
    proof {
        assert forall|a: u64| #[trigger] m1.contains_key(a) implies ({
            let row = EntityRow { position: pos, renderable: m1[a].renderable, tags: tile_tags(tile) };
            rows_compatible(m1[a], row) && rows_compatible(row, m1[a])
        }) by {
            if a != f {
                assert(m0.contains_key(a));
                if tile == Tile::Player {
                    assert(m0[a].tags.player is None);
                }
            }
        }
    }
    let e = match tile {
        Tile::Wall => create_wall(level, &pos),
        Tile::Player => create_player(level, &pos),
        Tile::Box(c) => create_box(level, &pos, c),
        Tile::Spot(c) => create_box_spot(level, &pos, c),
        _ => create_floor(level, &pos),
    };
    proof {
        let m2 = level.rows();
        assert(m2.dom() =~= m1.dom().insert(e));
        assert(m2.contains_key(f) && m2[f] == m1[f]);
        assert(m2.contains_key(e) && tile_row(m2[e], tile, x as int, y as int));
        assert(tile_tags(tile) != no_tags());
        assert forall|a: u64, b: u64|
            #[trigger] m2.contains_key(a) && #[trigger] m2.contains_key(b) && a != b && same_cell(m2[a], m2[b])
            implies m2[a].tags != m2[b].tags by {
            if a != e && b != e {
                assert(m1.contains_key(a) && m1.contains_key(b));
            } else if a == e {
                assert(m1.contains_key(b));
            } else {
                assert(m1.contains_key(a));
            }
        }
        if level.has_player() && tile != Tile::Player {
            let p = choose|p: u64| #[trigger] m2.contains_key(p) && m2[p].tags.player is Some;
            assert(m0.contains_key(p));
        }
        if old(level).has_player() {
            let p = choose|p: u64| #[trigger] m0.contains_key(p) && m0[p].tags.player is Some;
            assert(m2.contains_key(p));
        }
        if tile == Tile::Player {
            assert(m2[e].tags.player is Some);
        }
    }
}

/// Most symbols a layout may have: one per cell of a 255 by 255 grid.
pub const MAX_SYMBOLS: usize = 65025;

pub open spec fn all_known(toks: Seq<Token>) -> bool {
    forall|k: int| 0 <= k < toks.len() ==> #[trigger] tile_of(toks[k].2) is Some
}

/// Few enough symbols, each in column and row 254 or less.
pub open spec fn small_enough(toks: Seq<Token>) -> bool {
    toks.len() <= MAX_SYMBOLS && forall|k: int| #![trigger toks[k]] 0 <= k < toks.len() ==> toks[k].0 <= 254 && toks[k].1 <= 254
}

pub open spec fn is_player_symbol(toks: Seq<Token>, k: int) -> bool {
    tile_of(toks[k].2) == Some(Tile::Player)
}

pub open spec fn some_player(toks: Seq<Token>) -> bool {
    exists|k: int| 0 <= k < toks.len() && #[trigger] is_player_symbol(toks, k)
}

pub open spec fn two_players(toks: Seq<Token>) -> bool {
    exists|k1: int, k2: int|
        0 <= k1 < k2 < toks.len() && #[trigger] is_player_symbol(toks, k1) && #[trigger] is_player_symbol(toks, k2)
}

/// The grid is exactly wide and high enough for the symbols.
pub open spec fn spans(toks: Seq<Token>, w: int, h: int) -> bool {
    &&& forall|k: int| #![trigger toks[k]] 0 <= k < toks.len() ==> toks[k].0 < w && toks[k].1 < h
    &&& exists|k: int| #![trigger toks[k]] 0 <= k < toks.len() && toks[k].0 + 1 == w
    &&& exists|k: int| #![trigger toks[k]] 0 <= k < toks.len() && toks[k].1 + 1 == h
}

/// Loads a level layout into `level`, replacing what it held: a fresh
/// level exactly as wide and high as the layout, holding for each symbol
/// other than `N` one floor on its cell and, but for `.`, one entity of its
/// tile there, and nothing else. It fails on an unknown symbol, on a layout
/// too large, or unless exactly one player is placed; `level` is then left
/// as it was.
pub fn load_map(level: &mut Level, map_string: &str) -> (r: Result<(), LoadError>)
    ensures
        ({
            let toks = layout_tokens(map_string.spec_bytes());
            &&& cells_ordered(toks)
            &&& (r == Err::<(), LoadError>(LoadError::UnrecognizedSymbol)) <==> !all_known(toks)
            &&& (r == Err::<(), LoadError>(LoadError::TooLarge)) <==> all_known(toks) && !small_enough(toks)
            &&& (r == Err::<(), LoadError>(LoadError::NoPlayer)) <==> all_known(toks) && small_enough(toks)
                && !some_player(toks)
            &&& (r == Err::<(), LoadError>(LoadError::Conflict)) <==> all_known(toks) && small_enough(toks)
                && two_players(toks)
            &&& r is Err ==> *final(level) == *old(level)
            &&& r is Ok ==> {
                &&& final(level).wf()
                &&& final(level).has_player()
                &&& final(level).gameplay.state == GameplayState::Playing
                &&& final(level).gameplay.move_count == 0
                &&& final(level).events.events@.len() == 0
                &&& final(level).time.elapsed_ms == 0
                &&& spans(toks, final(level).width as int, final(level).height as int)
                &&& forall|k: int| 0 <= k < toks.len() ==> #[trigger] cell_built(final(level).rows(), toks[k])
                &&& forall|id: u64| #[trigger] final(level).rows().contains_key(id) ==> from_token(
                    final(level).rows(),
                    id,
                    toks,
                    toks.len() as int,
                )
                &&& one_per_kind(final(level).rows())
            }
        }),
{
    let toks = layout_symbols(map_string);
    let ghost tv = layout_tokens(map_string.spec_bytes());
    proof {
        assert forall|k: int| 0 <= k < toks@.len() implies #[trigger] tv[k] == token_view(toks@[k]) by {
            assert(toks@.map_values(|t: (usize, usize, Vec<u8>)| token_view(t))[k] == token_view(toks@[k]));
        }
        assert(tv.len() == toks@.len());
        lemma_layout_ordered(map_string.spec_bytes());
    }
    let mut i: usize = 0;
    while i < toks.len()
        invariant
            i <= toks@.len(),
            tv.len() == toks@.len(),
            tv == layout_tokens(map_string.spec_bytes()),
            cells_ordered(tv),
            forall|k: int| 0 <= k < toks@.len() ==> #[trigger] tv[k] == token_view(toks@[k]),
            forall|k: int| 0 <= k < i ==> #[trigger] tile_of(tv[k].2) is Some,
        decreases toks@.len() - i,
    {
        if tile_of_bytes(&toks[i].2).is_none() {
            assert(tile_of(tv[i as int].2) is None);
            return Err(LoadError::UnrecognizedSymbol);
        }
        i += 1;
    }
    if toks.len() > MAX_SYMBOLS {
        return Err(LoadError::TooLarge);
    }
    let mut w: u8 = 0;
    let mut h: u8 = 0;
    i = 0;
    while i < toks.len()
        invariant
            i <= toks@.len(),
            tv.len() == toks@.len(),
            toks@.len() <= MAX_SYMBOLS,
            tv == layout_tokens(map_string.spec_bytes()),
            cells_ordered(tv),
            forall|k: int| 0 <= k < toks@.len() ==> #[trigger] tv[k] == token_view(toks@[k]),
            all_known(tv),
            forall|k: int| #![trigger tv[k]] 0 <= k < i ==> tv[k].0 < w && tv[k].1 < h,
            w == 0 || exists|k: int| #![trigger tv[k]] 0 <= k < i && tv[k].0 + 1 == w,
            h == 0 || exists|k: int| #![trigger tv[k]] 0 <= k < i && tv[k].1 + 1 == h,
        decreases toks@.len() - i,
    {
        let (x, y) = (toks[i].0, toks[i].1);
        assert(tv[i as int] == token_view(toks@[i as int]));
        if x > 254 || y > 254 {
            assert(!(tv[i as int].0 <= 254 && tv[i as int].1 <= 254));
            return Err(LoadError::TooLarge);
        }
        let ghost (w0, h0) = (w, h);
        if x as u8 + 1 > w {
            w = x as u8 + 1;
        }
        if y as u8 + 1 > h {
            h = y as u8 + 1;
        }
        assert forall|k: int| #![trigger tv[k]] 0 <= k < i + 1 implies tv[k].0 < w && tv[k].1 < h by {
            if k < i {
                assert(tv[k].0 < w0 && tv[k].1 < h0);
            }
        }
        proof {
            if w != w0 {
                assert(tv[i as int].0 + 1 == w);
            } else if w != 0 {
                let k = choose|k: int| #![trigger tv[k]] 0 <= k < i && tv[k].0 + 1 == w;
                assert(tv[k].0 + 1 == w);
            }
            if h != h0 {
                assert(tv[i as int].1 + 1 == h);
            } else if h != 0 {
                let k = choose|k: int| #![trigger tv[k]] 0 <= k < i && tv[k].1 + 1 == h;
                assert(tv[k].1 + 1 == h);
            }
        }
        i += 1;
    }
    assert(small_enough(tv));
    let mut fresh = Level::new(w, h);
    let mut count: usize = 0;
    let mut player: bool = false;
    i = 0;
    while i < toks.len()
        invariant
            i <= toks@.len(),
            tv.len() == toks@.len(),
            tv == layout_tokens(map_string.spec_bytes()),
            forall|k: int| 0 <= k < toks@.len() ==> #[trigger] tv[k] == token_view(toks@[k]),
            all_known(tv),
            small_enough(tv),
            cells_ordered(tv),
            forall|k: int| #![trigger tv[k]] 0 <= k < toks@.len() ==> tv[k].0 < w && tv[k].1 < h,
            w == 0 || exists|k: int| #![trigger tv[k]] 0 <= k < toks@.len() && tv[k].0 + 1 == w,
            h == 0 || exists|k: int| #![trigger tv[k]] 0 <= k < toks@.len() && tv[k].1 + 1 == h,
            fresh.wf(),
            one_per_kind(fresh.rows()),
            fresh.width == w && fresh.height == h,
            fresh.gameplay.state == GameplayState::Playing && fresh.gameplay.move_count == 0,
            fresh.events.events@.len() == 0 && fresh.time.elapsed_ms == 0,
            fresh.rows().len() <= count,
            count <= 2 * i,
            player <==> fresh.has_player(),
            player <==> exists|k: int| 0 <= k < i && #[trigger] is_player_symbol(tv, k),
            forall|k1: int, k2: int|
                0 <= k1 < k2 < i && #[trigger] is_player_symbol(tv, k1) ==> !#[trigger] is_player_symbol(tv, k2),
            forall|k: int| 0 <= k < i ==> #[trigger] cell_built(fresh.rows(), tv[k]),
            forall|id: u64| #[trigger] fresh.rows().contains_key(id) ==> from_token(fresh.rows(), id, tv, i as int),
        decreases toks@.len() - i,
    {
        let tile = tile_of_bytes(&toks[i].2).unwrap();
        assert(tv[i as int] == token_view(toks@[i as int]));
        assert(tile == tile_of(tv[i as int].2).unwrap());
        if tile == Tile::Player && player {
            proof {
                let k = choose|k: int| 0 <= k < i && #[trigger] is_player_symbol(tv, k);
                assert(is_player_symbol(tv, i as int));
                assert(two_players(tv));
            }
            return Err(LoadError::Conflict);
        }
        let ghost before = fresh.rows();
        let ghost had_player = player;
        if tile != Tile::Nothing {
            assert(tv[i as int].0 < w && tv[i as int].1 < h);
            let x = toks[i].0 as u8;
            let y = toks[i].1 as u8;
            proof {
                assert forall|a: u64| #[trigger] before.contains_key(a) implies !at_cell(before[a], x as int, y as int) by {
                    assert(from_token(before, a, tv, i as int));
                    let k = choose|k: int| 0 <= k < i && #[trigger] row_of_symbol(before[a], tv[k]);
                    assert(cell_before(tv[k], tv[i as int].0, tv[i as int].1));
                }
            }
            build_cell(&mut fresh, tile, x, y);
            if tile == Tile::Player {
                player = true;
            }
            proof {
                let after = fresh.rows();
                assert forall|k: int| 0 <= k < i + 1 implies #[trigger] cell_built(after, tv[k]) by {
                    if k < i {
                        assert(cell_built(before, tv[k]));
                        let t = tile_of(tv[k].2).unwrap();
                        if t != Tile::Nothing {
                            let a = choose|id: u64| #[trigger] before.contains_key(id) && tile_row(before[id], Tile::Floor, tv[k].0, tv[k].1);
                            assert(after.contains_key(a) && after[a] == before[a]);
                            let b = choose|id: u64| #[trigger] before.contains_key(id) && tile_row(before[id], t, tv[k].0, tv[k].1);
                            assert(after.contains_key(b) && after[b] == before[b]);
                        }
                    }
                }
                assert forall|id: u64| #[trigger] after.contains_key(id) implies from_token(after, id, tv, i + 1) by {
                    if before.contains_key(id) {
                        assert(from_token(before, id, tv, i as int));
                        let k = choose|k: int| 0 <= k < i && #[trigger] row_of_symbol(before[id], tv[k]);
                        assert(row_of_symbol(after[id], tv[k]));
                    } else {
                        assert(row_of_symbol(after[id], tv[i as int]));
                    }
                }
            }
            count = count + 2;
        } else {
            proof {
                assert forall|id: u64| #[trigger] fresh.rows().contains_key(id) implies from_token(fresh.rows(), id, tv, i + 1) by {
                    assert(from_token(fresh.rows(), id, tv, i as int));
                    let k = choose|k: int| 0 <= k < i && #[trigger] row_of_symbol(fresh.rows()[id], tv[k]);
                    assert(row_of_symbol(fresh.rows()[id], tv[k]));
                }
            }
        }
        proof {
            if tile == Tile::Player {
                assert(is_player_symbol(tv, i as int));
                assert(!had_player);
                assert forall|k: int| 0 <= k < i implies !#[trigger] is_player_symbol(tv, k) by {}
            } else {
                assert(!is_player_symbol(tv, i as int));
            }
            assert forall|k1: int, k2: int|
                0 <= k1 < k2 < i + 1 && #[trigger] is_player_symbol(tv, k1) implies !#[trigger] is_player_symbol(tv, k2) by {
                if k2 == i && tile == Tile::Player {
                    assert(!is_player_symbol(tv, k1));
                }
            }
        }
        i += 1;
    }
    proof {
        assert(!two_players(tv)) by {
            if two_players(tv) {
                let (k1, k2) = choose|k1: int, k2: int|
                    0 <= k1 < k2 < tv.len() && #[trigger] is_player_symbol(tv, k1) && #[trigger] is_player_symbol(tv, k2);
                assert(!is_player_symbol(tv, k2));
            }
        }
    }
    if !player {
        return Err(LoadError::NoPlayer);
    }
    proof {
        let k = choose|k: int| 0 <= k < tv.len() && #[trigger] is_player_symbol(tv, k);
        assert(tv[k].0 < w && tv[k].1 < h);
        assert(spans(tv, w as int, h as int));
    }
    *level = fresh;
    Ok(())
}

} // verus!
