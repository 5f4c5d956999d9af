use vstd::prelude::*;

verus! {

/// `specs::VecStorage`, the storage that each component kind names.
#[verifier::reject_recursive_types(T)]
#[verifier::external_type_specification]
#[verifier::external_body]
pub struct ExVecStorage<T>(specs::VecStorage<T>);

/// A colour by its red, green and blue parts.
#[derive(Clone, Copy, Debug, PartialEq, Eq, Structural)]
pub struct Colour {
    pub r: u8,
    pub g: u8,
    pub b: u8,
}

/// A location in map coordinates.
#[derive(Clone, Copy, Debug, PartialEq, Eq, Structural)]
pub struct Position {
    pub x: i32,
    pub y: i32,
}

/// How an entity is drawn: a glyph of code page 437 and its two colours.
#[derive(Clone, Copy, Debug, PartialEq, Eq, Structural)]
pub struct Renderable {
    pub glyph: u16,
    pub foreground: Colour,
    pub background: Colour,
}

/// Marks an entity as moved by the keyboard. Every entity that carries the
/// mark and a position answers to the same key.
#[derive(Clone, Copy, Debug, PartialEq, Eq, Structural)]
pub struct Player;

impl specs::Component for Position {
    type Storage = specs::VecStorage<Self>;
}

impl specs::Component for Renderable {
    type Storage = specs::VecStorage<Self>;
}

impl specs::Component for Player {
    type Storage = specs::VecStorage<Self>;
}

/// The components of one entity: each kind is there or not.
#[derive(Clone, Copy, Debug, PartialEq, Eq, Structural)]
pub struct Components {
    pub position: Option<Position>,
    pub renderable: Option<Renderable>,
    pub player: Option<Player>,
}

impl Components {
    /// The entity has a position and carries the player's mark.
    pub open spec fn controlled(&self) -> bool {
        self.player.is_some() && self.position.is_some()
    }

    /// The entity has a position and a way to be drawn.
    pub open spec fn drawable(&self) -> bool {
        self.position.is_some() && self.renderable.is_some()
    }

    pub open spec fn with_position(&self, p: Option<Position>) -> Components {
        Components { position: p, renderable: self.renderable, player: self.player }
    }

    pub open spec fn with_renderable(&self, r: Option<Renderable>) -> Components {
        Components { position: self.position, renderable: r, player: self.player }
    }

    pub open spec fn with_player(&self, t: Option<Player>) -> Components {
        Components { position: self.position, renderable: self.renderable, player: t }
    }

    /// An entity without components.
    pub fn none() -> (c: Components)
        ensures
            c == (Components { position: None, renderable: None, player: None }),
    {
        Components { position: None, renderable: None, player: None }
    }
}

} // verus!
