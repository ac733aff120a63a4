//! Directions, sides and the fixed-size maps keyed by them.

use vstd::prelude::*;

verus! {

/// One of the six axis-aligned directions.
#[derive(Copy, Clone, Debug, PartialEq, Eq, Structural)]
pub enum Direction {
    West,
    East,
    South,
    North,
    Down,
    Up,
}

/// A direction, or `None` for geometry that faces no axis.
pub type Side = Option<Direction>;

/// The six directions in their fixed order.
pub open spec fn direction_order() -> Seq<Direction> {
    seq![
        Direction::West,
        Direction::East,
        Direction::South,
        Direction::North,
        Direction::Down,
        Direction::Up,
    ]
}

/// The seven sides in their fixed order: the six directions, then `None`.
pub open spec fn side_order() -> Seq<Side> {
    seq![
        Some(Direction::West),
        Some(Direction::East),
        Some(Direction::South),
        Some(Direction::North),
        Some(Direction::Down),
        Some(Direction::Up),
        None,
    ]
}

/// The six directions as an array, in their fixed order.
pub fn directions() -> (r: [Direction; 6])
    ensures
        r@ == direction_order(),
{
    [
        Direction::West,
        Direction::East,
        Direction::South,
        Direction::North,
        Direction::Down,
        Direction::Up,
    ]
}

/// The seven sides as an array, in their fixed order.
pub fn sides() -> (r: [Side; 7])
    ensures
        r@ == side_order(),
{
    [
        Some(Direction::West),
        Some(Direction::East),
        Some(Direction::South),
        Some(Direction::North),
        Some(Direction::Down),
        Some(Direction::Up),
        None,
    ]
}

impl Direction {
    /// The direction pointing the other way along the same axis.
    pub open spec fn spec_opposite(self) -> Direction {
        match self {
            Direction::West => Direction::East,
            Direction::East => Direction::West,
            Direction::South => Direction::North,
            Direction::North => Direction::South,
            Direction::Down => Direction::Up,
            Direction::Up => Direction::Down,
        }
    }

    /// Position of the direction in the fixed order, from 0 to 5.
    pub open spec fn ordinal(self) -> int {
        match self {
            Direction::West => 0,
            Direction::East => 1,
            Direction::South => 2,
            Direction::North => 3,
            Direction::Down => 4,
            Direction::Up => 5,
        }
    }

    /// The unit step of the direction as `(x, y, z)`: west and east run
    /// along x, south and north along y, down and up along z.
    pub open spec fn step(self) -> (int, int, int) {
        match self {
            Direction::West => (-1, 0, 0),
            Direction::East => (1, 0, 0),
            Direction::South => (0, -1, 0),
            Direction::North => (0, 1, 0),
            Direction::Down => (0, 0, -1),
            Direction::Up => (0, 0, 1),
        }
    }

    #[verifier::when_used_as_spec(spec_opposite)]
    pub fn opposite(self) -> (r: Direction)
        ensures
            r == self.spec_opposite(),
            r != self,
            r.spec_opposite() == self,
    {
        match self {
            Direction::West => Direction::East,
            Direction::East => Direction::West,
            Direction::South => Direction::North,
            Direction::North => Direction::South,
            Direction::Down => Direction::Up,
            Direction::Up => Direction::Down,
        }
    }

    /// The unit vector of the direction in integer space.
    pub fn unit_vector(self) -> (r: [i32; 3])
        ensures
            (r[0] as int, r[1] as int, r[2] as int) == self.step(),
    {
        match self {
            Direction::West => [-1, 0, 0],
            Direction::East => [1, 0, 0],
            Direction::South => [0, -1, 0],
            Direction::North => [0, 1, 0],
            Direction::Down => [0, 0, -1],
            Direction::Up => [0, 0, 1],
        }
    }
}

/// Exactly one value for each direction.
#[derive(Clone, Debug, Default)]
pub struct DirMap<T> {
    pub west: T,
    pub east: T,
    pub south: T,
    pub north: T,
    pub down: T,
    pub up: T,
}

impl<T> DirMap<T> {
    /// The value stored for `direction`.
    pub open spec fn at(self, direction: Direction) -> T {
        match direction {
            Direction::West => self.west,
            Direction::East => self.east,
            Direction::South => self.south,
            Direction::North => self.north,
            Direction::Down => self.down,
            Direction::Up => self.up,
        }
    }

    /// The map that holds `value` for `direction` and agrees with `self`
    /// everywhere else.
    pub open spec fn with(self, direction: Direction, value: T) -> DirMap<T> {
        match direction {
            Direction::West => DirMap { west: value, ..self },
            Direction::East => DirMap { east: value, ..self },
            Direction::South => DirMap { south: value, ..self },
            Direction::North => DirMap { north: value, ..self },
            Direction::Down => DirMap { down: value, ..self },
            Direction::Up => DirMap { up: value, ..self },
        }
    }

    /// Applies `f` to the six values in the fixed order of the directions
    /// and collects the results under the same directions.
    pub fn map<U, F: FnMut(T) -> U>(self, mut f: F) -> (r: DirMap<U>)
        requires
            forall|d: Direction| call_requires(f, (#[trigger] self.at(d),)),
        ensures
            forall|d: Direction| call_ensures(f, (self.at(d),), #[trigger] r.at(d)),
    {
        proof {
            assert(call_requires(f, (self.at(Direction::West),)));
            assert(call_requires(f, (self.at(Direction::East),)));
            assert(call_requires(f, (self.at(Direction::South),)));
            assert(call_requires(f, (self.at(Direction::North),)));
            assert(call_requires(f, (self.at(Direction::Down),)));
            assert(call_requires(f, (self.at(Direction::Up),)));
        }
        let west = f(self.west);
        let east = f(self.east);
        let south = f(self.south);
        let north = f(self.north);
        let down = f(self.down);
        let up = f(self.up);
        DirMap { west, east, south, north, down, up }
    }

    /// Reads the value stored for `direction`.
    pub fn get(&self, direction: Direction) -> (r: &T)
        ensures
            *r == self.at(direction),
    {
        match direction {
            Direction::West => &self.west,
            Direction::East => &self.east,
            Direction::South => &self.south,
            Direction::North => &self.north,
            Direction::Down => &self.down,
            Direction::Up => &self.up,
        }
    }

    /// Replaces the value stored for `direction`.
    pub fn set(&mut self, direction: Direction, value: T)
        ensures
            *final(self) == old(self).with(direction, value),
    {
        match direction {
            Direction::West => self.west = value,
            Direction::East => self.east = value,
            Direction::South => self.south = value,
            Direction::North => self.north = value,
            Direction::Down => self.down = value,
            Direction::Up => self.up = value,
        }
    }
}

/// Exactly one value for each side: the six directions and `None`.
#[derive(Clone, Debug, Default)]
pub struct SideMap<T> {
    pub west: T,
    pub east: T,
    pub south: T,
    pub north: T,
    pub down: T,
    pub up: T,
    pub none: T,
}

impl<T> SideMap<T> {
    /// The value stored for `side`.
    pub open spec fn at(self, side: Side) -> T {
        match side {
            Some(Direction::West) => self.west,
            Some(Direction::East) => self.east,
            Some(Direction::South) => self.south,
            Some(Direction::North) => self.north,
            Some(Direction::Down) => self.down,
            Some(Direction::Up) => self.up,
            None => self.none,
        }
    }

    /// The map that holds `value` for `side` and agrees with `self`
    /// everywhere else.
    pub open spec fn with(self, side: Side, value: T) -> SideMap<T> {
        match side {
            Some(Direction::West) => SideMap { west: value, ..self },
            Some(Direction::East) => SideMap { east: value, ..self },
            Some(Direction::South) => SideMap { south: value, ..self },
            Some(Direction::North) => SideMap { north: value, ..self },
            Some(Direction::Down) => SideMap { down: value, ..self },
            Some(Direction::Up) => SideMap { up: value, ..self },
            None => SideMap { none: value, ..self },
        }
    }

    /// Applies `f` to the seven values in the fixed order of the sides and
    /// collects the results under the same sides.
    pub fn map<U, F: FnMut(T) -> U>(self, mut f: F) -> (r: SideMap<U>)
        requires
            forall|s: Side| call_requires(f, (#[trigger] self.at(s),)),
        ensures
            forall|s: Side| call_ensures(f, (self.at(s),), #[trigger] r.at(s)),
    {
        proof {
            assert(call_requires(f, (self.at(Some(Direction::West)),)));
            assert(call_requires(f, (self.at(Some(Direction::East)),)));
            assert(call_requires(f, (self.at(Some(Direction::South)),)));
            assert(call_requires(f, (self.at(Some(Direction::North)),)));
            assert(call_requires(f, (self.at(Some(Direction::Down)),)));
            assert(call_requires(f, (self.at(Some(Direction::Up)),)));
            assert(call_requires(f, (self.at(None),)));
        }
        let west = f(self.west);
        let east = f(self.east);
        let south = f(self.south);
        let north = f(self.north);
        let down = f(self.down);
        let up = f(self.up);
        let none = f(self.none);
        SideMap { west, east, south, north, down, up, none }
    }

    /// Reads the value stored for `side`.
    pub fn get(&self, side: Side) -> (r: &T)
        ensures
            *r == self.at(side),
    {
        match side {
            Some(Direction::West) => &self.west,
            Some(Direction::East) => &self.east,
            Some(Direction::South) => &self.south,
            Some(Direction::North) => &self.north,
            Some(Direction::Down) => &self.down,
            Some(Direction::Up) => &self.up,
            None => &self.none,
        }
    }

    /// Replaces the value stored for `side`.
    pub fn set(&mut self, side: Side, value: T)
        ensures
            *final(self) == old(self).with(side, value),
    {
        match side {
            Some(Direction::West) => self.west = value,
            Some(Direction::East) => self.east = value,
            Some(Direction::South) => self.south = value,
            Some(Direction::North) => self.north = value,
            Some(Direction::Down) => self.down = value,
            Some(Direction::Up) => self.up = value,
            None => self.none = value,
        }
    }
}

impl<T> std::ops::Index<Direction> for DirMap<T> {
    type Output = T;

    fn index(&self, index: Direction) -> (r: &T)
        ensures
            *r == self.at(index),
    {
        self.get(index)
    }
}

impl<T> vstd::std_specs::core::IndexSpecImpl<Direction> for DirMap<T> {
    open spec fn index_req(&self, index: &Direction) -> bool {
        true
    }
}

impl<T> std::ops::Index<Side> for SideMap<T> {
    type Output = T;

    fn index(&self, index: Side) -> (r: &T)
        ensures
            *r == self.at(index),
    {
        self.get(index)
    }
}

impl<T> vstd::std_specs::core::IndexSpecImpl<Side> for SideMap<T> {
    open spec fn index_req(&self, index: &Side) -> bool {
        true
    }
}

impl<T> std::ops::IndexMut<Direction> for DirMap<T> {
    fn index_mut(&mut self, index: Direction) -> (r: &mut T)
        ensures
            *r == old(self).at(index),
            *final(self) == old(self).with(index, *final(r)),
    {
        match index {
            Direction::West => &mut self.west,
            Direction::East => &mut self.east,
            Direction::South => &mut self.south,
            Direction::North => &mut self.north,
            Direction::Down => &mut self.down,
            Direction::Up => &mut self.up,
        }
    }
}

impl<T> std::ops::IndexMut<Side> for SideMap<T> {
    fn index_mut(&mut self, index: Side) -> (r: &mut T)
        ensures
            *r == old(self).at(index),
            *final(self) == old(self).with(index, *final(r)),
    {
        match index {
            Some(Direction::West) => &mut self.west,
            Some(Direction::East) => &mut self.east,
            Some(Direction::South) => &mut self.south,
            Some(Direction::North) => &mut self.north,
            Some(Direction::Down) => &mut self.down,
            Some(Direction::Up) => &mut self.up,
            None => &mut self.none,
        }
    }
}

/// Taking the opposite twice gives the direction back, and the opposite
/// steps the other way along the same axis.
pub proof fn lemma_opposite_involutive(d: Direction)
    ensures
        d.spec_opposite().spec_opposite() == d,
        d.spec_opposite() != d,
        d.spec_opposite().step() == (-d.step().0, -d.step().1, -d.step().2),
{
}

/// Every direction stands once in the fixed order, at its ordinal, and
/// every side once in the order of the sides.
pub proof fn lemma_orders_complete(d: Direction)
    ensures
        direction_order().len() == 6,
        side_order().len() == 7,
        0 <= d.ordinal() < 6,
        direction_order()[d.ordinal()] == d,
        side_order()[d.ordinal()] == Some(d),
        side_order()[6] == None::<Direction>,
{
}

} // verus!
