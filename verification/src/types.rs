//! The data model shared with the server: directions, grid positions, snakes,
//! food, full world snapshots, and the tagged message union of the wire
//! protocol.  Each executable type has a mathematical model (`PosModel`,
//! `SnakeModel`, ...) that the contracts of the codec and the session state
//! machine speak about.

use vstd::prelude::*;

verus! {

/// One of the four headings a player may request or a snake may hold.
#[derive(Clone, Copy, PartialEq, Eq, Structural, Debug, Hash)]
pub enum Direction {
    Up,
    Down,
    Left,
    Right,
}

/// A grid coordinate on the square map.
#[derive(Clone, Copy, PartialEq, Eq, Structural, Debug, Hash, Default)]
pub struct Position {
    pub x: i32,
    pub y: i32,
}

/// One snake as the server reports it: identity, body (head first),
/// current heading, liveness and score.
#[derive(Clone, PartialEq, Debug)]
pub struct Snake {
    pub id: usize,
    pub body: Vec<Position>,
    pub direction: Direction,
    pub alive: bool,
    pub score: u32,
}

/// A food item; it has no identity beyond its position.
#[derive(Clone, PartialEq, Debug)]
pub struct Food {
    pub position: Position,
}

/// A full replace-on-update snapshot of the world.  The client never merges
/// partial updates; each snapshot fully supersedes the previous one.
#[derive(Clone, PartialEq, Debug)]
pub struct GameState {
    pub room_id: String,
    pub snakes: Vec<Snake>,
    pub foods: Vec<Food>,
    pub game_started: bool,
    pub game_over: bool,
}

/// The tagged message union exchanged with the server.
#[derive(Clone, PartialEq, Debug)]
pub enum GameMessage {
    /// Client to server: requested next heading for the sender's snake.
    PlayerInput(Direction),
    /// Client to server: the sender is ready to start or restart.
    Ready,
    /// Server to client: full world replace.
    GameState(GameState),
    /// Server to client: lobby occupancy.
    MatchingStatus { current: usize, required: usize },
    /// Server to client: round end with final standings, best rank first.
    GameOver { rankings: Vec<(usize, u32)> },
}

/// Mathematical model of a `Position`.
pub struct PosModel {
    pub x: int,
    pub y: int,
}

/// Mathematical model of a `Snake`.
pub struct SnakeModel {
    pub id: int,
    pub body: Seq<PosModel>,
    pub direction: Direction,
    pub alive: bool,
    pub score: int,
}

/// Mathematical model of a `Food`.
pub struct FoodModel {
    pub position: PosModel,
}

/// Mathematical model of a `GameState`.
pub struct StateModel {
    pub room_id: Seq<char>,
    pub snakes: Seq<SnakeModel>,
    pub foods: Seq<FoodModel>,
    pub game_started: bool,
    pub game_over: bool,
}

/// Mathematical model of a `GameMessage`.  Rankings are pairs of
/// (snake id, score), in the server-assigned order.
pub enum MessageModel {
    PlayerInput(Direction),
    Ready,
    Snapshot(StateModel),
    Matching { current: int, required: int },
    Over { rankings: Seq<(int, int)> },
}

impl View for Position {
    type V = PosModel;

    open spec fn view(&self) -> PosModel {
        PosModel { x: self.x as int, y: self.y as int }
    }
}

impl View for Snake {
    type V = SnakeModel;

    open spec fn view(&self) -> SnakeModel {
        SnakeModel {
            id: self.id as int,
            body: self.body@.map_values(|p: Position| p@),
            direction: self.direction,
            alive: self.alive,
            score: self.score as int,
        }
    }
}

impl View for Food {
    type V = FoodModel;

    open spec fn view(&self) -> FoodModel {
        FoodModel { position: self.position@ }
    }
}

impl View for GameState {
    type V = StateModel;

    open spec fn view(&self) -> StateModel {
        StateModel {
            room_id: self.room_id@,
            snakes: self.snakes@.map_values(|s: Snake| s@),
            foods: self.foods@.map_values(|f: Food| f@),
            game_started: self.game_started,
            game_over: self.game_over,
        }
    }
}

impl View for GameMessage {
    type V = MessageModel;

    open spec fn view(&self) -> MessageModel {
        match self {
            GameMessage::PlayerInput(d) => MessageModel::PlayerInput(*d),
            GameMessage::Ready => MessageModel::Ready,
            GameMessage::GameState(st) => MessageModel::Snapshot(st@),
            GameMessage::MatchingStatus { current, required } => MessageModel::Matching {
                current: *current as int,
                required: *required as int,
            },
            GameMessage::GameOver { rankings } => MessageModel::Over {
                rankings: rankings@.map_values(|r: (usize, u32)| (r.0 as int, r.1 as int)),
            },
        }
    }
}

/// A position model whose coordinates fit in `i32`.
pub open spec fn wf_pos(p: PosModel) -> bool {
    &&& i32::MIN <= p.x <= i32::MAX
    &&& i32::MIN <= p.y <= i32::MAX
}

/// A snake model whose fields fit the machine types of `Snake`.
pub open spec fn wf_snake(sn: SnakeModel) -> bool {
    &&& 0 <= sn.id <= usize::MAX
    &&& 0 <= sn.score <= u32::MAX
    &&& forall|k: int| 0 <= k < sn.body.len() ==> wf_pos(#[trigger] sn.body[k])
}

/// A snapshot model whose fields fit the machine types of `GameState`.
pub open spec fn wf_state(st: StateModel) -> bool {
    &&& forall|k: int| 0 <= k < st.snakes.len() ==> wf_snake(#[trigger] st.snakes[k])
    &&& forall|k: int| 0 <= k < st.foods.len() ==> wf_pos(#[trigger] st.foods[k].position)
}

/// A message model whose fields fit the machine types of `GameMessage`:
/// exactly the models that executable messages can take.
pub open spec fn wf_msg(m: MessageModel) -> bool {
    match m {
        MessageModel::PlayerInput(_) => true,
        MessageModel::Ready => true,
        MessageModel::Snapshot(st) => wf_state(st),
        MessageModel::Matching { current, required } => {
            &&& 0 <= current <= usize::MAX
            &&& 0 <= required <= usize::MAX
        },
        MessageModel::Over { rankings } => forall|k: int|
            0 <= k < rankings.len() ==> {
                &&& 0 <= (#[trigger] rankings[k]).0 <= usize::MAX
                &&& 0 <= rankings[k].1 <= u32::MAX
            },
    }
}

/// The model of every constructible message is well formed: the machine
/// types of the fields already enforce the bounds that `wf_msg` states.
pub proof fn lemma_view_wf(m: &GameMessage)
    ensures
        wf_msg(m@),
{
    match m {
        GameMessage::GameState(st) => {
            assert forall|k: int| 0 <= k < st@.snakes.len() implies wf_snake(
                #[trigger] st@.snakes[k],
            ) by {
                assert(st@.snakes[k] == st.snakes@[k]@);
            }
            assert forall|k: int| 0 <= k < st@.foods.len() implies wf_pos(
                (#[trigger] st@.foods[k]).position,
            ) by {
                assert(st@.foods[k] == st.foods@[k]@);
            }
        },
        GameMessage::GameOver { rankings } => {
            let rm = rankings@.map_values(|r: (usize, u32)| (r.0 as int, r.1 as int));
            assert forall|k: int| 0 <= k < rm.len() implies {
                &&& 0 <= (#[trigger] rm[k]).0 <= usize::MAX
                &&& 0 <= rm[k].1 <= u32::MAX
            } by {
                assert(rm[k] == (rankings@[k].0 as int, rankings@[k].1 as int));
            }
            assert(m@ == (MessageModel::Over { rankings: rm }));
        },
        _ => {},
    }
}

impl Position {
    /// Builds the position with the given coordinates.
    pub fn new(x: i32, y: i32) -> (p: Position)
        ensures
            p.x == x,
            p.y == y,
    {
        Position { x, y }
    }

    /// True exactly when the position lies on a square map of the given side.
    pub fn is_in_bounds(&self, map_size: i32) -> (r: bool)
        ensures
            r == (0 <= self.x < map_size && 0 <= self.y < map_size),
    {
        self.x >= 0 && self.x < map_size && self.y >= 0 && self.y < map_size
    }
}

impl Snake {
    /// The head of the snake: the first body segment, if any.
    pub fn head(&self) -> (r: Option<&Position>)
        ensures
            match r {
                Some(p) => self.body@.len() > 0 && *p == self.body@[0],
                None => self.body@.len() == 0,
            },
    {
        if self.body.len() == 0 {
            None
        } else {
            Some(&self.body[0])
        }
    }

    /// True exactly when the snake's head collides with a later segment of
    /// its own body.  A snake with no body collides with nothing.
    pub fn hits_self(&self) -> (r: bool)
        ensures
            r == (self.body@.len() > 0 && exists|k: int|
                1 <= k < self.body@.len() && (#[trigger] self.body@[k]) == self.body@[0]),
    {
        if self.body.len() == 0 {
            return false;
        }
        let head = self.body[0];
        let mut k: usize = 1;
        while k < self.body.len()
            invariant
                1 <= k <= self.body@.len(),
                self.body@.len() > 0,
                head == self.body@[0],
                forall|j: int| 1 <= j < k ==> (#[trigger] self.body@[j]) != self.body@[0],
            decreases self.body@.len() - k,
        {
            if self.body[k] == head {
                return true;
            }
            k += 1;
        }
        false
    }

    /// True exactly when this snake's head collides with any segment of a
    /// different snake's body.  A snake never collides with itself here.
    pub fn hits_other(&self, other: &Snake) -> (r: bool)
        ensures
            r == (self.id != other.id && self.body@.len() > 0 && exists|k: int|
                0 <= k < other.body@.len() && (#[trigger] other.body@[k]) == self.body@[0]),
    {
        if self.id == other.id {
            return false;
        }
        if self.body.len() == 0 {
            return false;
        }
        let head = self.body[0];
        let mut k: usize = 0;
        while k < other.body.len()
            invariant
                0 <= k <= other.body@.len(),
                self.id != other.id,
                self.body@.len() > 0,
                head == self.body@[0],
                forall|j: int| 0 <= j < k ==> (#[trigger] other.body@[j]) != self.body@[0],
            decreases other.body@.len() - k,
        {
            if other.body[k] == head {
                assert(other.body@[k as int] == self.body@[0]);
                return true;
            }
            k += 1;
        }
        false
    }
}

} // verus!
