use vstd::prelude::*;

verus! {

/// Grid cell `(x, y)` of an entity, with `z` as its draw order.
#[derive(Clone, Copy, PartialEq, Eq, Structural, Debug)]
pub struct Position {
    pub x: u8,
    pub y: u8,
    pub z: u8,
}

/// The image paths of an entity: one for a still image, several for the
/// frames of an animation.
#[derive(Clone, Debug)]
pub struct Renderable {
    pub paths: Vec<String>,
}

#[derive(Clone, Copy, PartialEq, Eq, Structural, Debug)]
pub enum RenderableKind {
    Static,
    Animated,
}

/// Marker: the entity is a wall.
#[derive(Clone, Copy, PartialEq, Eq, Structural, Debug)]
pub struct Wall {}

/// Marker: the entity is the player.
#[derive(Clone, Copy, PartialEq, Eq, Structural, Debug)]
pub struct Player {}

#[derive(Clone, Copy, PartialEq, Eq, Structural, Debug)]
pub enum BoxColor {
    Red,
    Blue,
}

/// A pushable box of a color.
#[derive(Clone, Copy, PartialEq, Eq, Structural, Debug)]
pub struct Box {
    pub color: BoxColor,
}

/// A target cell for a box of a color.
#[derive(Clone, Copy, PartialEq, Eq, Structural, Debug)]
pub struct BoxSpot {
    pub color: BoxColor,
}

/// Marker: the entity takes part in push chains.
#[derive(Clone, Copy, PartialEq, Eq, Structural, Debug)]
pub struct Moveable {}

/// Marker: the entity blocks push chains.
#[derive(Clone, Copy, PartialEq, Eq, Structural, Debug)]
pub struct Immovable {}

#[derive(Clone, Copy, PartialEq, Eq, Structural, Debug)]
pub enum GameplayState {
    Playing,
    Won,
    Lost,
}

/// State of the level being played and the number of accepted moves.
#[derive(Clone, Copy, PartialEq, Eq, Structural, Debug)]
pub struct GamePlay {
    pub state: GameplayState,
    pub move_count: u32,
}

/// Milliseconds elapsed since the level was loaded.
#[derive(Clone, Copy, PartialEq, Eq, Structural, Debug)]
pub struct Time {
    pub elapsed_ms: u64,
}

/// The tag and payload components that an entity carries besides its
/// position and image; `None` means the component is absent.
#[derive(Clone, Copy, PartialEq, Eq, Structural, Debug)]
pub struct Tags {
    pub wall: Option<Wall>,
    pub player: Option<Player>,
    pub moveable: Option<Moveable>,
    pub immovable: Option<Immovable>,
    pub crate_box: Option<Box>,
    pub box_spot: Option<BoxSpot>,
}

/// Everything the store holds for one entity.
#[derive(Clone, Debug)]
pub struct EntityRow {
    pub position: Position,
    pub renderable: Renderable,
    pub tags: Tags,
}

impl GameplayState {
    pub fn name(&self) -> (r: &'static str)
        ensures
            r@ == self.spec_name(),
    {
        match self {
            GameplayState::Playing => "Playing",
            GameplayState::Won => "Won",
            GameplayState::Lost => "Lost",
        }
    }

    pub open spec fn spec_name(&self) -> Seq<char> {
        match self {
            GameplayState::Playing => "Playing"@,
            GameplayState::Won => "Won"@,
            GameplayState::Lost => "Lost"@,
        }
    }
}

impl BoxColor {
    pub fn name(&self) -> (r: &'static str)
        ensures
            r@ == self.spec_name(),
    {
        match self {
            BoxColor::Red => "red",
            BoxColor::Blue => "blue",
        }
    }

    pub open spec fn spec_name(&self) -> Seq<char> {
        match self {
            BoxColor::Red => "red"@,
            BoxColor::Blue => "blue"@,
        }
    }
}

impl GamePlay {
    /// A fresh record: playing, no moves yet.
    pub fn new() -> (r: GamePlay)
        ensures
            r.state == GameplayState::Playing,
            r.move_count == 0,
    {
        GamePlay { state: GameplayState::Playing, move_count: 0 }
    }
}

impl Renderable {
    pub open spec fn wf(&self) -> bool {
        self.paths@.len() > 0
    }

    /// A still image.
    pub fn new_static(path: &str) -> (r: Renderable)
        ensures
            r.paths@.len() == 1,
            r.paths@[0]@ == path@,
    {
        let mut paths: Vec<String> = Vec::new();
        paths.push(path.to_string());
        Renderable { paths }
    }

    /// An animation with the given frames.
    pub fn new_animated(paths: Vec<String>) -> (r: Renderable)
        ensures
            r.paths@ == paths@,
    {
        Renderable { paths }
    }

    /// `Static` for one path, `Animated` for several.
    pub fn kind(&self) -> (r: RenderableKind)
        requires
            self.wf(),
        ensures
            r == (if self.paths@.len() == 1 {
                RenderableKind::Static
            } else {
                RenderableKind::Animated
            }),
    {
        if self.paths.len() == 1 {
            RenderableKind::Static
        } else {
            RenderableKind::Animated
        }
    }

    /// The path of frame `path_index`, counted cyclically.
    pub fn path(&self, path_index: usize) -> (r: String)
        requires
            self.wf(),
        ensures
            r@ == self.paths@[(path_index as int) % (self.paths@.len() as int)]@,
    {
        self.paths[path_index % self.paths.len()].clone()
    }
}

} // verus!
