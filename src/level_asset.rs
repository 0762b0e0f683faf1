use vstd::prelude::*;
use vstd::string::StrSliceExecFns;

use crate::geometry::GridPos;

verus! {

/// Width, in cells, of every level.
pub const MAP_SIZE_WIDTH: i32 = 28;

/// Height, in cells, of every level.
pub const MAP_SIZE_HEIGHT: i32 = 16;

/// The tag a level document gives a cell.
#[derive(Clone, Copy, Debug, PartialEq, Eq, Structural)]
pub enum TileType {
    Brick,
    SolidBrick,
    Ladder,
    Rope,
    FalseBrick,
    HiddenLadder,
    Gold,
    Guard,
    Player,
}

/// One tagged cell of a level document.
#[derive(Clone, Copy, Debug, PartialEq, Eq, Structural)]
pub struct LevelTile {
    pub position: GridPos,
    pub behaviour: TileType,
}

impl LevelTile {
    pub fn new(tile_type: TileType, position: GridPos) -> (r: LevelTile)
        ensures
            r.position == position,
            r.behaviour == tile_type,
    {
        LevelTile { position, behaviour: tile_type }
    }
}

/// A decoded level: its tagged cells and its size in cells.
#[derive(Debug)]
pub struct LevelDataAsset {
    pub tiles: Vec<LevelTile>,
    pub width: i32,
    pub height: i32,
}

impl LevelDataAsset {
    pub fn new() -> (r: LevelDataAsset)
        ensures
            r.tiles@.len() == 0,
            r.width == 0,
            r.height == 0,
    {
        LevelDataAsset { tiles: Vec::new(), width: 0, height: 0 }
    }
}

impl Default for LevelDataAsset {
    fn default() -> (r: LevelDataAsset)
        ensures
            r.tiles@.len() == 0,
            r.width == 0,
            r.height == 0,
    {
        LevelDataAsset::new()
    }
}

/// A level as stored: one string per row, the top row first.
#[derive(Debug)]
pub struct LevelDataDiskAsset {
    pub rows: Vec<String>,
}

/// A decoded level together with the characters that named no tile.
#[derive(Debug)]
pub struct ParsedLevel {
    pub level: LevelDataAsset,
    pub unexpected: Vec<char>,
}

pub open spec fn spec_tile_type_of(c: char) -> Option<TileType> {
    if c == '#' {
        Some(TileType::Brick)
    } else if c == '@' {
        Some(TileType::SolidBrick)
    } else if c == 'H' {
        Some(TileType::Ladder)
    } else if c == '-' {
        Some(TileType::Rope)
    } else if c == 'X' {
        Some(TileType::FalseBrick)
    } else if c == 'S' {
        Some(TileType::HiddenLadder)
    } else if c == '$' {
        Some(TileType::Gold)
    } else if c == '0' {
        Some(TileType::Guard)
    } else if c == '&' {
        Some(TileType::Player)
    } else {
        None
    }
}

/// The tag that a document character stands for; a space and unknown
/// characters stand for none.
pub fn tile_type_of(c: char) -> (r: Option<TileType>)
    ensures
        r == spec_tile_type_of(c),
{
    match c {
        '#' => Some(TileType::Brick),
        '@' => Some(TileType::SolidBrick),
        'H' => Some(TileType::Ladder),
        '-' => Some(TileType::Rope),
        'X' => Some(TileType::FalseBrick),
        'S' => Some(TileType::HiddenLadder),
        '$' => Some(TileType::Gold),
        '0' => Some(TileType::Guard),
        '&' => Some(TileType::Player),
        _ => None,
    }
}

/// The tagged cells of one row, read left to right, at height `y`.
pub open spec fn row_tiles(row: Seq<char>, y: int) -> Seq<LevelTile>
    decreases row.len(),
{
    if row.len() == 0 {
        seq![]
    } else {
        let prev = row_tiles(row.drop_last(), y);
        match spec_tile_type_of(row.last()) {
            Some(t) => prev.push(
                LevelTile { position: GridPos { x: (row.len() - 1) as i32, y: y as i32 }, behaviour: t },
            ),
            None => prev,
        }
    }
}

/// The characters of one row that are neither a tag nor a space.
pub open spec fn row_unexpected(row: Seq<char>) -> Seq<char>
    decreases row.len(),
{
    if row.len() == 0 {
        seq![]
    } else {
        let prev = row_unexpected(row.drop_last());
        if spec_tile_type_of(row.last()).is_none() && row.last() != ' ' {
            prev.push(row.last())
        } else {
            prev
        }
    }
}

/// The tagged cells of the first `k` of `n` rows; row `i` lies at height `n - 1 - i`.
pub open spec fn rows_tiles(rows: Seq<Seq<char>>, k: nat, n: int) -> Seq<LevelTile>
    decreases k,
{
    if k == 0 {
        seq![]
    } else {
        rows_tiles(rows, (k - 1) as nat, n) + row_tiles(rows[k - 1], n - k)
    }
}

pub open spec fn rows_unexpected(rows: Seq<Seq<char>>, k: nat) -> Seq<char>
    decreases k,
{
    if k == 0 {
        seq![]
    } else {
        rows_unexpected(rows, (k - 1) as nat) + row_unexpected(rows[k - 1])
    }
}

pub open spec fn rows_view(rows: Seq<String>) -> Seq<Seq<char>> {
    rows.map_values(|s: String| s@)
}

/// Decodes the rows of a stored level: the bottom row is `y == 0`, column
/// `x` is the character's index in its row. Unknown characters are handed
/// back, in order, for the caller to report.
pub fn parse_level(disk: &LevelDataDiskAsset) -> (r: ParsedLevel)
    requires
        disk.rows@.len() <= i32::MAX,
        forall|i: int| 0 <= i < disk.rows@.len() ==> #[trigger] disk.rows@[i]@.len() <= i32::MAX,
    ensures
        r.level.width == MAP_SIZE_WIDTH,
        r.level.height == MAP_SIZE_HEIGHT,
        r.level.tiles@ == rows_tiles(rows_view(disk.rows@), disk.rows@.len(), disk.rows@.len() as int),
        r.unexpected@ == rows_unexpected(rows_view(disk.rows@), disk.rows@.len()),
{
    let ghost rv = rows_view(disk.rows@);
    let n = disk.rows.len();
    let mut tiles: Vec<LevelTile> = Vec::new();
    let mut unexpected: Vec<char> = Vec::new();
    let mut i: usize = 0;
    while i < n
        invariant
            n == disk.rows@.len(),
            n <= i32::MAX,
            i <= n,
            rv == rows_view(disk.rows@),
            forall|j: int| 0 <= j < disk.rows@.len() ==> #[trigger] disk.rows@[j]@.len() <= i32::MAX,
            tiles@ == rows_tiles(rv, i as nat, n as int),
            unexpected@ == rows_unexpected(rv, i as nat),
        decreases n - i,
    {
        let row = disk.rows[i].as_str();
        let len = row.unicode_len();
        let y: i32 = (n - 1 - i) as i32;
        let ghost tiles0 = tiles@;
        let ghost unexpected0 = unexpected@;
        assert(rv[i as int] == row@);
        let mut x: usize = 0;
        while x < len
            invariant
                len == row@.len(),
                len <= i32::MAX,
                x <= len,
                tiles@ == tiles0 + row_tiles(row@.subrange(0, x as int), y as int),
                unexpected@ == unexpected0 + row_unexpected(row@.subrange(0, x as int)),
            decreases len - x,
        {
            let c = row.get_char(x);
            let ghost pre = row@.subrange(0, x as int);
            let ghost next = row@.subrange(0, x as int + 1);
            assert(next.drop_last() =~= pre);
            assert(next.last() == c);
            match tile_type_of(c) {
                Some(t) => {
                    tiles.push(LevelTile::new(t, GridPos::new(x as i32, y)));
                    assert(tiles@ =~= tiles0 + row_tiles(next, y as int));
                    assert(unexpected@ =~= unexpected0 + row_unexpected(next));
                },
                None => {
                    if c != ' ' {
                        unexpected.push(c);
                    }
                    assert(tiles@ =~= tiles0 + row_tiles(next, y as int));
                    assert(unexpected@ =~= unexpected0 + row_unexpected(next));
                },
            }
            x += 1;
        }
        assert(row@.subrange(0, len as int) =~= row@);
        i += 1;
        assert(tiles@ =~= rows_tiles(rv, i as nat, n as int));
        assert(unexpected@ =~= rows_unexpected(rv, i as nat));
    }
    ParsedLevel {
        level: LevelDataAsset { tiles, width: MAP_SIZE_WIDTH, height: MAP_SIZE_HEIGHT },
        unexpected,
    }
}

} // verus!
