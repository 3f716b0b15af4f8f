use vstd::prelude::*;
use vstd::string::StringSliceAdditionalSpecFns;

use rand::rngs::ThreadRng;

use crate::chance::random_below;
use crate::engine;
use crate::board::{
    idx, lemma_rotation_keeps_total, moved_left, slide_fits, rotated_ccw, rotated_cw, total, Board, BOARD_SIZE, SIDE,
};

verus! {

/// The side whose turn it is.
#[derive(Debug, Clone, Copy, PartialEq, Eq, Structural)]
pub enum Player {
    /// The mover, who slides the tiles.
    Player,
    /// The environment, which places new tiles.
    Environment,
}

/// A direction in which the mover slides every tile.
#[derive(Debug, Clone, Copy, PartialEq, Eq, PartialOrd, Ord, Hash, Structural)]
pub enum PlayerAction {
    Up,
    Down,
    Left,
    Right,
}

/// A cell of the board, given by row and column, both below the side length.
#[derive(Debug, Clone, Copy, PartialEq, Eq)]
pub struct Placement {
    row: u8,
    col: u8,
}

/// A new tile of value `val`, 2 or 4, put on an empty cell.
#[derive(Debug, Clone, Copy, PartialEq, Eq)]
pub struct EnvironmentAction {
    placement: Placement,
    val: usize,
}

/// A move of either side.
#[derive(Debug, Clone, Copy, PartialEq, Eq)]
pub enum Action {
    PlayerAction(PlayerAction),
    EnvironmentAction(EnvironmentAction),
}

/// The action that was refused: it was not its side's turn, or its cell was taken.
#[derive(Debug)]
pub struct IllegalActionError(pub Action);

/// The board and the side to act next.
#[derive(Debug, Clone)]
pub struct GameState {
    board: Board,
    player: Player,
}

impl Placement {
    #[verifier::type_invariant]
    spec fn on_board(self) -> bool {
        self.row < 4 && self.col < 4
    }

    /// Row-major index of the cell.
    pub closed spec fn cell(self) -> int {
        4 * self.row + self.col
    }

    /// The cell at row `r`, column `c`; `None` when either lies off the board.
    pub fn from_pair(r: usize, c: usize) -> (p: Option<Placement>)
        ensures
            p is Some <==> r < SIDE && c < SIDE,
            p matches Some(q) ==> q.cell() == idx(r as int, c as int),
    {
        if r < SIDE && c < SIDE {
            Some(Placement { row: r as u8, col: c as u8 })
        } else {
            None
        }
    }

    /// The cell with row-major index `i`; `None` when `i` lies off the board.
    pub fn from_index(i: usize) -> (p: Option<Placement>)
        ensures
            p is Some <==> i < 16,
            p matches Some(q) ==> q.cell() == i,
    {
        if i < 16 {
            Some(Placement { row: (i / SIDE) as u8, col: (i % SIDE) as u8 })
        } else {
            None
        }
    }

    pub fn row(&self) -> (r: usize)
        ensures
            r < SIDE,
            r == self.cell() / 4,
    {
        proof {
            use_type_invariant(self);
        }
        self.row as usize
    }

    pub fn col(&self) -> (c: usize)
        ensures
            c < SIDE,
            c == self.cell() % 4,
    {
        proof {
            use_type_invariant(self);
        }
        self.col as usize
    }

    /// Row-major index of the cell.
    pub fn index(&self) -> (i: usize)
        ensures
            i == self.cell(),
            i < 16,
    {
        proof {
            use_type_invariant(self);
        }
        4 * self.row as usize + self.col as usize
    }
}

impl EnvironmentAction {
    #[verifier::type_invariant]
    spec fn seed_value(self) -> bool {
        self.val == 2 || self.val == 4
    }

    /// The cell the tile goes on.
    pub closed spec fn spec_placement(self) -> Placement {
        self.placement
    }

    /// The value of the new tile.
    pub closed spec fn spec_val(self) -> usize {
        self.val
    }

    /// The cell lies on the board and the value is 2 or 4, as for every action that
    /// exists at run time.
    pub closed spec fn well_formed(self) -> bool {
        self.placement.row < 4 && self.placement.col < 4 && (self.val == 2 || self.val == 4)
    }

    /// A new tile of value `val` on `placement`; `None` unless `val` is 2 or 4.
    pub fn new(placement: Placement, val: usize) -> (a: Option<EnvironmentAction>)
        ensures
            a is Some <==> (val == 2 || val == 4),
            a matches Some(e) ==> e.spec_placement() == placement && e.spec_val() == val
                && e.well_formed(),
    {
        proof {
            use_type_invariant(&placement);
        }
        if val == 2 || val == 4 {
            Some(EnvironmentAction { placement, val })
        } else {
            None
        }
    }

    pub fn placement(&self) -> (p: Placement)
        ensures
            p == self.spec_placement(),
            self.well_formed(),
    {
        proof {
            use_type_invariant(self);
            use_type_invariant(&self.placement);
        }
        self.placement
    }

    pub fn val(&self) -> (v: usize)
        ensures
            v == self.spec_val(),
            v == 2 || v == 4,
            self.well_formed(),
    {
        proof {
            use_type_invariant(self);
            use_type_invariant(&self.placement);
        }
        self.val
    }
}

/// What `str::trim` leaves of a text, as bytes.
pub uninterp spec fn trim_of(b: Seq<u8>) -> Seq<u8>;

/// Relies on str::trim: it removes leading and trailing white space.
#[verifier::external_body]
fn trim_text(s: &str) -> (r: &str)
    ensures
        r.spec_bytes() == trim_of(s.spec_bytes()),
{
    s.trim()
}

/// An ASCII letter in lower case; other bytes as they are.
pub open spec fn lower_byte(c: u8) -> u8 {
    if 65 <= c <= 90 {
        (c + 32) as u8
    } else {
        c
    }
}

/// Whether `t` spells the lower-case word `w`, ignoring the case of letters.
pub open spec fn spells(t: Seq<u8>, w: Seq<u8>) -> bool {
    t.len() == w.len() && forall|i: int| 0 <= i < t.len() ==> lower_byte(#[trigger] t[i]) == w[i]
}

/// The direction named by a token: the full word or its first letter, in any case
/// (the words are written as their ASCII codes).
pub open spec fn action_of_token(t: Seq<u8>) -> Option<PlayerAction> {
    if spells(t, seq![117u8, 112u8]) || spells(t, seq![117u8]) {
        Some(PlayerAction::Up)
    } else if spells(t, seq![100u8, 111u8, 119u8, 110u8]) || spells(t, seq![100u8]) {
        Some(PlayerAction::Down)
    } else if spells(t, seq![108u8, 101u8, 102u8, 116u8]) || spells(t, seq![108u8]) {
        Some(PlayerAction::Left)
    } else if spells(t, seq![114u8, 105u8, 103u8, 104u8, 116u8]) || spells(t, seq![114u8]) {
        Some(PlayerAction::Right)
    } else {
        None
    }
}

fn to_lower_byte(c: u8) -> (r: u8)
    ensures
        r == lower_byte(c),
{
    if 65 <= c && c <= 90 {
        c + 32
    } else {
        c
    }
}

fn spells_word<const N: usize>(t: &[u8], w: [u8; N]) -> (r: bool)
    ensures
        r == spells(t@, w@),
{
    if t.len() != N {
        return false;
    }
    let mut i: usize = 0;
    while i < N
        invariant
            t@.len() == N,
            w@.len() == N,
            i <= N,
            forall|k: int| 0 <= k < i ==> lower_byte(#[trigger] t@[k]) == w@[k],
        decreases N - i,
    {
        if to_lower_byte(t[i]) != w[i] {
            return false;
        }
        i = i + 1;
    }
    true
}

/// The text given for a direction was none of the known tokens.
#[derive(Debug, Clone, PartialEq, Eq)]
pub struct UnknownActionError {
    pub input: String,
}

impl PlayerAction {
    /// The direction named by `t`: "up" or "u", "down" or "d", "left" or "l", "right"
    /// or "r", in any case.
    pub fn from_token(t: &str) -> (r: Option<PlayerAction>)
        ensures
            r == action_of_token(t.spec_bytes()),
    {
        let b = t.as_bytes();
        assert([117u8, 112u8]@ =~= seq![117u8, 112u8]);
        assert([117u8]@ =~= seq![117u8]);
        assert([100u8, 111u8, 119u8, 110u8]@ =~= seq![100u8, 111u8, 119u8, 110u8]);
        assert([100u8]@ =~= seq![100u8]);
        assert([108u8, 101u8, 102u8, 116u8]@ =~= seq![108u8, 101u8, 102u8, 116u8]);
        assert([108u8]@ =~= seq![108u8]);
        assert([114u8, 105u8, 103u8, 104u8, 116u8]@ =~= seq![114u8, 105u8, 103u8, 104u8, 116u8]);
        assert([114u8]@ =~= seq![114u8]);
        if spells_word(b, [117u8, 112u8]) || spells_word(b, [117u8]) {
            Some(PlayerAction::Up)
        } else if spells_word(b, [100u8, 111u8, 119u8, 110u8]) || spells_word(b, [100u8]) {
            Some(PlayerAction::Down)
        } else if spells_word(b, [108u8, 101u8, 102u8, 116u8]) || spells_word(b, [108u8]) {
            Some(PlayerAction::Left)
        } else if spells_word(b, [114u8, 105u8, 103u8, 104u8, 116u8]) || spells_word(b, [114u8]) {
            Some(PlayerAction::Right)
        } else {
            None
        }
    }

    /// Reads a line of input as a direction: surrounding white space is dropped and the
    /// rest must be one of the tokens of `from_token`.
    pub fn from_str(s: &str) -> (r: Result<PlayerAction, UnknownActionError>)
        ensures
            r matches Ok(a) ==> action_of_token(trim_of(s.spec_bytes())) == Some(a),
            r matches Err(e) ==> action_of_token(trim_of(s.spec_bytes())) is None && e.input@
                == s@,
    {
        match PlayerAction::from_token(trim_text(s)) {
            Some(a) => Ok(a),
            None => Err(UnknownActionError { input: s.to_owned() }),
        }
    }
}

/// The board after the mover slides every tile in direction `d`: a slide to the left,
/// seen through the rotation that turns `d` into left and back.
pub open spec fn moved(b: Seq<int>, d: PlayerAction) -> Seq<int> {
    match d {
        PlayerAction::Left => moved_left(b),
        PlayerAction::Right => rotated_cw(rotated_cw(moved_left(rotated_cw(rotated_cw(b))))),
        PlayerAction::Up => rotated_cw(moved_left(rotated_ccw(b))),
        PlayerAction::Down => rotated_ccw(moved_left(rotated_cw(b))),
    }
}

/// The other side.
pub open spec fn other(p: Player) -> Player {
    match p {
        Player::Player => Player::Environment,
        Player::Environment => Player::Player,
    }
}

/// Whether `a` may be taken now: a slide on the mover's turn, or a tile on an empty cell
/// on the environment's turn.
pub open spec fn is_legal(b: Seq<int>, p: Player, a: Action) -> bool {
    match a {
        Action::PlayerAction(_) => p == Player::Player,
        Action::EnvironmentAction(e) => p == Player::Environment && b[e.spec_placement().cell()]
            == 0,
    }
}

/// How much an action adds to the total of the tiles when it is applied.
pub open spec fn added_value(a: Action) -> int {
    match a {
        Action::PlayerAction(_) => 0,
        Action::EnvironmentAction(e) => e.spec_val() as int,
    }
}

/// The board after a legal action.
pub open spec fn applied(b: Seq<int>, a: Action) -> Seq<int> {
    match a {
        Action::PlayerAction(d) => moved(b, d),
        Action::EnvironmentAction(e) => b.update(e.spec_placement().cell(), e.spec_val() as int),
    }
}

/// Whether the tile at cell `k` has a neighbour in direction `d` that is empty or holds
/// the same value, so that a slide in `d` would move or merge it.
pub open spec fn tile_can_go(b: Seq<int>, k: int, d: PlayerAction) -> bool {
    let r = k / 4;
    let c = k % 4;
    let n = match d {
        PlayerAction::Up => k - 4,
        PlayerAction::Down => k + 4,
        PlayerAction::Left => k - 1,
        PlayerAction::Right => k + 1,
    };
    let inside = match d {
        PlayerAction::Up => r >= 1,
        PlayerAction::Down => r + 1 < 4,
        PlayerAction::Left => c >= 1,
        PlayerAction::Right => c + 1 < 4,
    };
    0 <= k < 16 && b[k] != 0 && inside && (b[n] == 0 || b[n] == b[k])
}

/// Whether some tile on the board can go in direction `d`.
pub open spec fn can_slide(b: Seq<int>, d: PlayerAction) -> bool {
    exists|k: int| 0 <= k < 16 && tile_can_go(b, k, d)
}

/// `seq![Action::PlayerAction(d)]` when `d` can be played, else nothing.
pub open spec fn if_slides(b: Seq<int>, d: PlayerAction) -> Seq<Action> {
    if can_slide(b, d) {
        seq![Action::PlayerAction(d)]
    } else {
        Seq::empty()
    }
}

/// The mover's legal actions, in the order up, down, left, right. Each direction is
/// tested on its own for every tile, so a direction is listed whenever some tile could
/// move or merge that way, not only when it is the first such direction of a tile.
pub open spec fn mover_actions(b: Seq<int>) -> Seq<Action> {
    if_slides(b, PlayerAction::Up) + if_slides(b, PlayerAction::Down) + if_slides(
        b,
        PlayerAction::Left,
    ) + if_slides(b, PlayerAction::Right)
}

/// A new tile of value `v` on the cell with row-major index `i`.
pub closed spec fn tile_action(i: int, v: int) -> Action {
    Action::EnvironmentAction(
        EnvironmentAction { placement: Placement { row: (i / 4) as u8, col: (i % 4) as u8 }, val: v as usize },
    )
}

/// The environment's actions on the first `n` cells: for each empty one, in order, a tile
/// of value 2 and a tile of value 4.
pub open spec fn environment_actions(b: Seq<int>, n: int) -> Seq<Action>
    decreases n,
{
    if n <= 0 {
        Seq::empty()
    } else {
        environment_actions(b, n - 1) + if b[n - 1] == 0 {
            seq![tile_action(n - 1, 2), tile_action(n - 1, 4)]
        } else {
            Seq::empty()
        }
    }
}

/// The row-major indices of the empty cells among the first `n`, in increasing order.
pub open spec fn empty_list(b: Seq<int>, n: int) -> Seq<int>
    decreases n,
{
    if n <= 0 {
        Seq::empty()
    } else {
        empty_list(b, n - 1) + if b[n - 1] == 0 {
            seq![n - 1]
        } else {
            Seq::empty()
        }
    }
}

/// Every action that the side `p` may take on board `b`.
pub open spec fn legal_actions(b: Seq<int>, p: Player) -> Seq<Action> {
    match p {
        Player::Player => mover_actions(b),
        Player::Environment => environment_actions(b, 16),
    }
}

/// A new tile of value `v` (2 or 4) on cell `i` is an environment action that places
/// exactly that value on exactly that cell.
pub proof fn lemma_tile_action_parts(i: int, v: int)
    requires
        0 <= i < 16,
        v == 2 || v == 4,
    ensures
        tile_action(i, v) is EnvironmentAction,
        tile_action(i, v)->EnvironmentAction_0.spec_placement().cell() == i,
        tile_action(i, v)->EnvironmentAction_0.spec_val() == v,
{
}

/// A well-formed new tile on an empty cell is among the environment's listed actions.
pub proof fn lemma_tile_on_empty_cell_is_listed(b: Seq<int>, e: EnvironmentAction)
    requires
        e.well_formed(),
        b[e.spec_placement().cell()] == 0,
    ensures
        legal_actions(b, Player::Environment).contains(Action::EnvironmentAction(e)),
{
    let i = e.spec_placement().cell();
    let v = e.spec_val() as int;
    assert(Action::EnvironmentAction(e) == tile_action(i, v));
    lemma_environment_action_listed(b, 16, i, v);
}

/// The environment's actions come in pairs, one pair for each empty cell in row-major
/// order: first the tile of value 2, then the tile of value 4.
pub proof fn lemma_environment_actions_shape(b: Seq<int>, n: int)
    requires
        0 <= n <= 16,
    ensures
        environment_actions(b, n).len() == 2 * empty_list(b, n).len(),
        forall|j: int|
            0 <= j < empty_list(b, n).len() ==> 0 <= #[trigger] empty_list(b, n)[j] < n && b[empty_list(b, n)[j]] == 0,
        forall|j: int|
            0 <= j < empty_list(b, n).len() ==> #[trigger] environment_actions(b, n)[2 * j] == tile_action(
                empty_list(b, n)[j],
                2,
            ) && environment_actions(b, n)[2 * j + 1] == tile_action(empty_list(b, n)[j], 4),
    decreases n,
{
    if n > 0 {
        lemma_environment_actions_shape(b, n - 1);
        let e0 = empty_list(b, n - 1);
        let a0 = environment_actions(b, n - 1);
        assert forall|j: int| 0 <= j < empty_list(b, n).len() implies 0 <= #[trigger] empty_list(
            b,
            n,
        )[j] < n && b[empty_list(b, n)[j]] == 0 by {
            if j < e0.len() {
                assert(empty_list(b, n)[j] == e0[j]);
            }
        }
        assert forall|j: int| 0 <= j < empty_list(b, n).len() implies #[trigger] environment_actions(
            b,
            n,
        )[2 * j] == tile_action(empty_list(b, n)[j], 2) && environment_actions(b, n)[2 * j + 1]
            == tile_action(empty_list(b, n)[j], 4) by {
            if j < e0.len() {
                assert(empty_list(b, n)[j] == e0[j]);
                assert(environment_actions(b, n)[2 * j] == a0[2 * j]);
                assert(environment_actions(b, n)[2 * j + 1] == a0[2 * j + 1]);
            }
        }
    }
}

/// The environment has exactly two actions for each empty cell.
pub proof fn lemma_environment_action_count(b: Seq<int>)
    ensures
        environment_actions(b, 16).len() == 2 * empty_list(b, 16).len(),
{
    lemma_environment_actions_shape(b, 16);
}

/// Every action listed for a side is legal for it, so `take_action_mut` accepts it.
pub proof fn lemma_listed_actions_are_legal(b: Seq<int>, p: Player, a: Action)
    requires
        legal_actions(b, p).contains(a),
    ensures
        is_legal(b, p, a),
{
    if p == Player::Environment {
        lemma_environment_actions_shape(b, 16);
        let l = environment_actions(b, 16);
        let q = choose|q: int| 0 <= q < l.len() && l[q] == a;
        let j = q / 2;
        let e = empty_list(b, 16);
        assert(0 <= e[j] < 16 && b[e[j]] == 0);
        assert(l[2 * j] == tile_action(e[j], 2));
        lemma_tile_action_parts(e[j], 2);
        lemma_tile_action_parts(e[j], 4);
        if q == 2 * j {
        } else {
            assert(q == 2 * j + 1);
        }
    } else {
        let l = mover_actions(b);
        let q = choose|q: int| 0 <= q < l.len() && l[q] == a;
        let s1 = if_slides(b, PlayerAction::Up);
        let s2 = if_slides(b, PlayerAction::Down);
        let s3 = if_slides(b, PlayerAction::Left);
        let s4 = if_slides(b, PlayerAction::Right);
        let s12 = s1 + s2;
        let s123 = s12 + s3;
        if q < s123.len() {
            assert(l[q] == s123[q]);
            if q < s12.len() {
                assert(s123[q] == s12[q]);
                if q < s1.len() {
                    assert(s12[q] == s1[q]);
                } else {
                    assert(s12[q] == s2[q - s1.len()]);
                }
            } else {
                assert(s123[q] == s3[q - s12.len()]);
            }
        } else {
            assert(l[q] == s4[q - s123.len()]);
        }
    }
}

/// The action that the draws `k` and `coin` pick for side `p` (see `action_for_draws`).
pub open spec fn drawn_action(b: Seq<int>, p: Player, k: int, coin: int) -> Option<Action> {
    match p {
        Player::Player => if 0 <= k < mover_actions(b).len() {
            Some(mover_actions(b)[k])
        } else {
            None
        },
        Player::Environment => if 0 <= k < empty_list(b, 16).len() {
            Some(tile_action(empty_list(b, 16)[k], if coin == 0 { 2 } else { 4 }))
        } else {
            None
        },
    }
}

/// Every pair of draws within range picks a distinct listed action, and every listed
/// action is picked by one pair: the mover's `k`-th action by `k`, the environment's
/// entries `2 * k` and `2 * k + 1` by `k` with coin 0 and 1.
pub proof fn lemma_drawn_action_is_listed(b: Seq<int>, p: Player, k: int, coin: int)
    requires
        0 <= coin < 2,
    ensures
        drawn_action(b, p, k, coin) is Some <==> 0 <= k && (p == Player::Player ==> k < legal_actions(b, p).len())
            && (p == Player::Environment ==> 2 * k < legal_actions(b, p).len()),
        drawn_action(b, p, k, coin) is Some ==> drawn_action(b, p, k, coin)->0 == legal_actions(b, p)[if p
            == Player::Player {
            k
        } else {
            2 * k + coin
        }],
        drawn_action(b, p, k, coin) matches Some(a) ==> legal_actions(b, p).contains(a),
{
    lemma_environment_actions_shape(b, 16);
    if let Some(a) = drawn_action(b, p, k, coin) {
        let q = if p == Player::Player {
            k
        } else {
            2 * k + coin
        };
        if p == Player::Environment {
            assert(environment_actions(b, 16)[2 * k] == tile_action(empty_list(b, 16)[k], 2));
        }
        assert(legal_actions(b, p)[q] == a);
    }
}

/// A board whose only tiles are `vi` at cell `i` and `vj` at cell `j`.
pub open spec fn two_tile_board(i: int, j: int, vi: int, vj: int) -> Seq<int> {
    Seq::new(
        16,
        |k: int|
            if k == i {
                vi
            } else if k == j {
                vj
            } else {
                0
            },
    )
}

/// Each empty cell gets a tile of value 2 and one of value 4 among the environment's
/// actions.
pub proof fn lemma_environment_action_listed(b: Seq<int>, n: int, i: int, v: int)
    requires
        0 <= i < n,
        b[i] == 0,
        v == 2 || v == 4,
    ensures
        environment_actions(b, n).contains(tile_action(i, v)),
    decreases n,
{
    if i < n - 1 {
        lemma_environment_action_listed(b, n - 1, i, v);
        let s = environment_actions(b, n - 1);
        let k = choose|k: int| 0 <= k < s.len() && s[k] == tile_action(i, v);
        assert(environment_actions(b, n)[k] == tile_action(i, v));
    } else {
        let s = environment_actions(b, n - 1);
        if v == 2 {
            assert(environment_actions(b, n)[s.len() as int] == tile_action(i, v));
        } else {
            assert(environment_actions(b, n)[s.len() as int + 1] == tile_action(i, v));
        }
    }
}

/// After a legal action the turn passes to the other side, so two actions of the same
/// side can never both be legal one after the other, whatever the board in between.
pub proof fn lemma_turns_alternate(b: Seq<int>, p: Player, a: Action, b2: Seq<int>, a2: Action)
    requires
        is_legal(b, p, a),
        is_legal(b2, other(p), a2),
    ensures
        (a is PlayerAction) != (a2 is PlayerAction),
{
}

/// A slide is refused on the environment's turn, and a new tile on the mover's turn.
pub proof fn lemma_wrong_side_refused(b: Seq<int>, d: PlayerAction, e: EnvironmentAction)
    ensures
        !is_legal(b, Player::Environment, Action::PlayerAction(d)),
        !is_legal(b, Player::Player, Action::EnvironmentAction(e)),
{
}

/// A new tile on a cell that already holds a tile is refused.
pub proof fn lemma_occupied_cell_refused(b: Seq<int>, p: Player, e: EnvironmentAction)
    requires
        b[e.spec_placement().cell()] != 0,
    ensures
        !is_legal(b, p, Action::EnvironmentAction(e)),
{
}

/// A full board on which no two neighbours hold the same value leaves the mover no
/// action: the game is over.
pub proof fn lemma_packed_board_has_no_moves(b: Seq<int>)
    requires
        b.len() == 16,
        forall|k: int| 0 <= k < 16 ==> b[k] != 0,
        forall|k: int| 0 <= k < 16 && k % 4 < 3 ==> #[trigger] b[k] != b[k + 1],
        forall|k: int| 0 <= k < 12 ==> #[trigger] b[k] != b[k + 4],
    ensures
        legal_actions(b, Player::Player).len() == 0,
{
    assert forall|k: int, d: PlayerAction| !tile_can_go(b, k, d) by {
        if 0 <= k < 16 {
            if k % 4 >= 1 {
                assert((k - 1) % 4 < 3);
                assert(b[k - 1] != b[k]);
            }
            if k / 4 >= 1 {
                assert(b[k - 4] != b[k]);
            }
        }
    }
    assert(!can_slide(b, PlayerAction::Up));
    assert(!can_slide(b, PlayerAction::Down));
    assert(!can_slide(b, PlayerAction::Left));
    assert(!can_slide(b, PlayerAction::Right));
}

/// The pairs of cells `(i, j)` with `i < j` and `i < n`, in row-major order of
/// (first, second).
pub open spec fn pairs_below(n: int) -> Seq<(int, int)>
    decreases n,
{
    if n <= 0 {
        Seq::empty()
    } else {
        pairs_below(n - 1) + Seq::new((16 - n) as nat, |m: int| (n - 1, n + m))
    }
}

/// Every pair of distinct cells, smaller index first, in row-major order.
pub open spec fn cell_pair_list() -> Seq<(int, int)> {
    pairs_below(16)
}

/// A tile value drawn by a coin: 2 for 0, 4 otherwise.
pub open spec fn seed_of(coin: int) -> int {
    if coin == 0 {
        2
    } else {
        4
    }
}

/// The starting board picked by the draws: the `pair`-th pair of cells gets the values
/// of `coin1` and `coin2`.
pub open spec fn drawn_start(pair: int, coin1: int, coin2: int) -> Seq<int> {
    two_tile_board(
        cell_pair_list()[pair].0,
        cell_pair_list()[pair].1,
        seed_of(coin1),
        seed_of(coin2),
    )
}

proof fn lemma_pairs_below_len(n: int)
    requires
        0 <= n <= 16,
    ensures
        2 * pairs_below(n).len() == n * (31 - n),
    decreases n,
{
    if n > 0 {
        lemma_pairs_below_len(n - 1);
        let prev = pairs_below(n - 1).len() as int;
        assert(pairs_below(n).len() == prev + (16 - n));
        assert((n - 1) * (32 - n) + 2 * (16 - n) == n * (31 - n)) by (nonlinear_arith);
    } else {
        assert(n * (31 - n) == 0) by (nonlinear_arith)
            requires
                n == 0,
        ;
    }
}

/// There are 120 pairs of distinct cells.
pub proof fn lemma_cell_pair_count()
    ensures
        cell_pair_list().len() == 120,
{
    lemma_pairs_below_len(16);
}

/// Pair `x` comes before pair `y` in row-major order of (first, second).
pub open spec fn pair_before(x: (usize, usize), y: (usize, usize)) -> bool {
    x.0 < y.0 || (x.0 == y.0 && x.1 < y.1)
}

/// Every pair of cells `(i, j)` with `i < j`, each exactly once, in increasing order.
fn cell_pairs() -> (pairs: Vec<(usize, usize)>)
    ensures
        forall|q: int| 0 <= q < pairs@.len() ==> #[trigger] pairs@[q].0 < pairs@[q].1 < 16,
        forall|q1: int, q2: int|
            0 <= q1 < q2 < pairs@.len() ==> pair_before(#[trigger] pairs@[q1], #[trigger] pairs@[q2]),
        forall|i: usize, j: usize| i < j < 16 ==> #[trigger] pairs@.contains((i, j)),
        pairs@.len() == cell_pair_list().len(),
        forall|q: int|
            0 <= q < pairs@.len() ==> (#[trigger] pairs@[q].0 as int, pairs@[q].1 as int)
                == cell_pair_list()[q],
{
    let mut pairs: Vec<(usize, usize)> = Vec::new();
    let mut i: usize = 0;
    while i < BOARD_SIZE
        invariant
            i <= 16,
            forall|q: int| 0 <= q < pairs@.len() ==> #[trigger] pairs@[q].0 < pairs@[q].1 < 16,
            forall|q: int| 0 <= q < pairs@.len() ==> #[trigger] pairs@[q].0 < i,
            forall|q1: int, q2: int|
                0 <= q1 < q2 < pairs@.len() ==> pair_before(#[trigger] pairs@[q1], #[trigger] pairs@[q2]),
            forall|a: usize, b: usize| a < b < 16 && a < i ==> #[trigger] pairs@.contains((a, b)),
            pairs@.len() == pairs_below(i as int).len(),
            forall|q: int|
                0 <= q < pairs@.len() ==> (#[trigger] pairs@[q].0 as int, pairs@[q].1 as int)
                    == pairs_below(i as int)[q],
        decreases 16 - i,
    {
        let mut j: usize = i + 1;
        while j < BOARD_SIZE
            invariant
                i < 16,
                i + 1 <= j <= 16,
                forall|q: int| 0 <= q < pairs@.len() ==> #[trigger] pairs@[q].0 < pairs@[q].1 < 16,
                forall|q: int| 0 <= q < pairs@.len() ==> pair_before(#[trigger] pairs@[q], (i, j)),
                forall|q1: int, q2: int|
                    0 <= q1 < q2 < pairs@.len() ==> pair_before(#[trigger] pairs@[q1], #[trigger] pairs@[q2]),
                forall|a: usize, b: usize|
                    a < b < 16 && (a < i || (a == i && b < j)) ==> #[trigger] pairs@.contains((a, b)),
                pairs@.len() == pairs_below(i as int).len() + (j - i - 1),
                forall|q: int|
                    0 <= q < pairs@.len() ==> (#[trigger] pairs@[q].0 as int, pairs@[q].1 as int)
                        == (pairs_below(i as int) + Seq::new(
                        (15 - i) as nat,
                        |m: int| (i as int, i + 1 + m),
                    ))[q],
            decreases 16 - j,
        {
            let ghost before = pairs@;
            pairs.push((i, j));
            proof {
                assert(pairs@[before.len() as int] == (i, j));
                assert forall|a: usize, b: usize|
                    a < b < 16 && (a < i || (a == i && b < j + 1)) implies #[trigger] pairs@.contains(
                    (a, b),
                ) by {
                    if a == i && b == j {
                        assert(pairs@[before.len() as int] == (a, b));
                    } else {
                        assert(before.contains((a, b)));
                        let q = choose|q: int| 0 <= q < before.len() && before[q] == (a, b);
                        assert(pairs@[q] == (a, b));
                    }
                }
                assert forall|q: int| 0 <= q < pairs@.len() implies pair_before(#[trigger] pairs@[q], (i, (j + 1) as usize)) by {
                    if q < before.len() {
                        assert(pairs@[q] == before[q]);
                    }
                }
            }
            j = j + 1;
        }
        assert(pairs_below(i + 1) =~= pairs_below(i as int) + Seq::new(
            (15 - i) as nat,
            |m: int| (i as int, i + 1 + m),
        ));
        i = i + 1;
    }
    pairs
}

impl GameState {
    pub closed spec fn spec_board(&self) -> Board {
        self.board
    }

    pub closed spec fn spec_player(&self) -> Player {
        self.player
    }

    /// A game at the given board, with `player` to act next.
    pub fn new(board: Board, player: Player) -> (g: GameState)
        ensures
            g.spec_board() == board,
            g.spec_player() == player,
    {
        GameState { board, player }
    }

    pub fn board(&self) -> (b: &Board)
        ensures
            *b == self.spec_board(),
    {
        &self.board
    }

    pub fn player(&self) -> (p: Player)
        ensures
            p == self.spec_player(),
    {
        self.player
    }

    /// Tells whether a slide in any direction is safe from overflow: all tiles together
    /// fit in a machine word, or each is at most half of one.
    pub fn slide_is_safe(&self) -> (r: bool)
        ensures
            r == slide_fits(self.spec_board()@),
    {
        let a = &self.board.0;
        let sum: u128 = a[0] as u128 + a[1] as u128 + a[2] as u128 + a[3] as u128 + a[4] as u128
            + a[5] as u128 + a[6] as u128 + a[7] as u128 + a[8] as u128 + a[9] as u128
            + a[10] as u128 + a[11] as u128 + a[12] as u128 + a[13] as u128 + a[14] as u128
            + a[15] as u128;
        assert(total(self.spec_board()@) == sum as int);
        if sum <= usize::MAX as u128 {
            return true;
        }
        let mut k: usize = 0;
        while k < BOARD_SIZE
            invariant
                k <= 16,
                total(self.spec_board()@) > usize::MAX,
                forall|i: int| 0 <= i < k ==> self.spec_board()@[i] <= usize::MAX / 2,
            decreases 16 - k,
        {
            if self.board.0[k] > usize::MAX / 2 {
                return false;
            }
            k = k + 1;
        }
        true
    }

    /// Applies `action` when it is legal and reports it back as illegal otherwise, in
    /// which case nothing changes. A legal action hands the turn to the other side. A
    /// slide keeps the total of the tiles; a new tile adds its value to it.
    pub fn take_action_mut(&mut self, action: Action) -> (r: Result<(), IllegalActionError>)
        requires
            is_legal(old(self).spec_board()@, old(self).spec_player(), action)
                && action is PlayerAction ==> slide_fits(old(self).spec_board()@),
        ensures
            r is Ok <==> is_legal(old(self).spec_board()@, old(self).spec_player(), action),
            r is Ok ==> total(final(self).spec_board()@) == total(old(self).spec_board()@)
                + added_value(action),
            r is Ok ==> final(self).spec_board()@ == applied(old(self).spec_board()@, action)
                && final(self).spec_player() == other(old(self).spec_player()),
            r matches Err(e) ==> e.0 == action && *final(self) == *old(self),
    {
        let is_correct_players_turn = match self.player {
            Player::Player => matches!(action, Action::PlayerAction(..)),
            Player::Environment => matches!(action, Action::EnvironmentAction(..)),
        };
        if !is_correct_players_turn {
            return Err(IllegalActionError(action));
        }
        match action {
            Action::PlayerAction(player_action) => {
                self.take_player_action_mut(player_action);
                Ok(())
            },
            Action::EnvironmentAction(environment_action) => {
                self.take_environment_action_mut(environment_action)
            },
        }
    }

    fn take_environment_action_mut(&mut self, action: EnvironmentAction) -> (r: Result<
        (),
        IllegalActionError,
    >)
        requires
            old(self).spec_player() == Player::Environment,
        ensures
            r is Ok <==> old(self).spec_board()@[action.spec_placement().cell()] == 0,
            r is Ok ==> final(self).spec_board()@ == old(self).spec_board()@.update(
                action.spec_placement().cell(),
                action.spec_val() as int,
            ) && final(self).spec_player() == Player::Player && total(final(self).spec_board()@)
                == total(old(self).spec_board()@) + action.spec_val(),
            r matches Err(e) ==> e.0 == Action::EnvironmentAction(action) && *final(self) == *old(
                self,
            ),
    {
        proof {
            use_type_invariant(&action);
        }
        let i = action.placement.index();
        if self.board.0[i] != 0 {
            return Err(IllegalActionError(Action::EnvironmentAction(action)));
        }
        self.board.0[i] = action.val;
        self.player = Player::Player;
        Ok(())
    }

    fn take_player_action_mut(&mut self, action: PlayerAction)
        requires
            old(self).spec_player() == Player::Player,
            slide_fits(old(self).spec_board()@),
        ensures
            final(self).spec_board()@ == moved(old(self).spec_board()@, action),
            final(self).spec_player() == Player::Environment,
            total(final(self).spec_board()@) == total(old(self).spec_board()@),
    {
        let ghost b0 = self.board@;
        match action {
            PlayerAction::Left => {
                self.board.move_left();
            },
            PlayerAction::Right => {
                proof {
                    lemma_rotation_keeps_total(b0);
                    lemma_rotation_keeps_total(rotated_cw(b0));
                }
                self.board.rotate_clockwise();
                self.board.rotate_clockwise();
                self.board.move_left();
                proof {
                    lemma_rotation_keeps_total(self.board@);
                    lemma_rotation_keeps_total(rotated_cw(self.board@));
                }
                self.board.rotate_clockwise();
                self.board.rotate_clockwise();
            },
            PlayerAction::Up => {
                proof {
                    lemma_rotation_keeps_total(b0);
                }
                self.board.rotate_counter_clockwise();
                self.board.move_left();
                proof {
                    lemma_rotation_keeps_total(self.board@);
                }
                self.board.rotate_clockwise();
            },
            PlayerAction::Down => {
                proof {
                    lemma_rotation_keeps_total(b0);
                }
                self.board.rotate_clockwise();
                self.board.move_left();
                proof {
                    lemma_rotation_keeps_total(self.board@);
                }
                self.board.rotate_counter_clockwise();
            },
        }
        self.player = Player::Environment;
    }

    /// Whether the tile at cell `k` can go in direction `d`.
    fn tile_can_go(&self, k: usize, d: PlayerAction) -> (r: bool)
        requires
            k < 16,
        ensures
            r == tile_can_go(self.board@, k as int, d),
    {
        let b = &self.board.0;
        let r = k / SIDE;
        let c = k % SIDE;
        if b[k] == 0 {
            return false;
        }
        match d {
            PlayerAction::Up => r >= 1 && (b[k - 4] == 0 || b[k - 4] == b[k]),
            PlayerAction::Down => r + 1 < SIDE && (b[k + 4] == 0 || b[k + 4] == b[k]),
            PlayerAction::Left => c >= 1 && (b[k - 1] == 0 || b[k - 1] == b[k]),
            PlayerAction::Right => c + 1 < SIDE && (b[k + 1] == 0 || b[k + 1] == b[k]),
        }
    }

    /// Every action that the side to act may take now. For the mover: each direction in
    /// which some tile would move or merge, in the order up, down, left, right, each
    /// once. For the environment: a tile of value 2 and one of value 4 on each empty
    /// cell, cells in row-major order. An empty result means the game is over.
    pub fn get_all_actions(&self) -> (r: Vec<Action>)
        ensures
            r@ == legal_actions(self.spec_board()@, self.spec_player()),
    {
        let ghost b = self.board@;
        match self.player {
            Player::Player => {
                let mut up = false;
                let mut down = false;
                let mut left = false;
                let mut right = false;
                for k in 0..BOARD_SIZE
                    invariant
                        b == self.board@,
                        up == exists|j: int| 0 <= j < k && tile_can_go(b, j, PlayerAction::Up),
                        down == exists|j: int| 0 <= j < k && tile_can_go(b, j, PlayerAction::Down),
                        left == exists|j: int| 0 <= j < k && tile_can_go(b, j, PlayerAction::Left),
                        right == exists|j: int|
                            0 <= j < k && tile_can_go(b, j, PlayerAction::Right),
                {
                    up = up || self.tile_can_go(k, PlayerAction::Up);
                    down = down || self.tile_can_go(k, PlayerAction::Down);
                    left = left || self.tile_can_go(k, PlayerAction::Left);
                    right = right || self.tile_can_go(k, PlayerAction::Right);
                }
                let mut actions: Vec<Action> = Vec::new();
                if up {
                    actions.push(Action::PlayerAction(PlayerAction::Up));
                }
                if down {
                    actions.push(Action::PlayerAction(PlayerAction::Down));
                }
                if left {
                    actions.push(Action::PlayerAction(PlayerAction::Left));
                }
                if right {
                    actions.push(Action::PlayerAction(PlayerAction::Right));
                }
                assert(actions@ =~= mover_actions(b));
                actions
            },
            Player::Environment => {
                let mut actions: Vec<Action> = Vec::new();
                for k in 0..BOARD_SIZE
                    invariant
                        b == self.board@,
                        actions@ == environment_actions(b, k as int),
                {
                    if self.board.0[k] == 0 {
                        let placement = Placement { row: (k / SIDE) as u8, col: (k % SIDE) as u8 };
                        actions.push(
                            Action::EnvironmentAction(EnvironmentAction { placement, val: 2 }),
                        );
                        actions.push(
                            Action::EnvironmentAction(EnvironmentAction { placement, val: 4 }),
                        );
                    }
                    assert(actions@ =~= environment_actions(b, k + 1));
                }
                actions
            },
        }
    }


    /// A new game with the mover to act and a board holding `first_val` at cell `first`
    /// and `second_val` at cell `second`, all other cells empty.
    pub fn with_two_tiles(first: usize, second: usize, first_val: usize, second_val: usize) -> (g:
        GameState)
        requires
            first < 16,
            second < 16,
            first != second,
            first_val == 2 || first_val == 4,
            second_val == 2 || second_val == 4,
        ensures
            g.spec_board()@ == two_tile_board(
                first as int,
                second as int,
                first_val as int,
                second_val as int,
            ),
            g.spec_player() == Player::Player,
            slide_fits(g.spec_board()@),
    {
        let mut board = Board([0; 16]);
        board.0[first] = first_val;
        board.0[second] = second_val;
        assert(board@ =~= two_tile_board(first as int, second as int, first_val as int, second_val as int));
        GameState { board, player: Player::Player }
    }

    /// The starting game picked by the draws: the `pair`-th of the 120 pairs of distinct
    /// cells in row-major order gets a tile of value 2 or 4 on each cell, by `coin1` and
    /// `coin2` (2 for 0, 4 otherwise); the mover acts first. Uniform draws give a
    /// uniform pair and fair, independent values.
    pub fn from_draws(pair: usize, coin1: usize, coin2: usize) -> (g: GameState)
        requires
            pair < 120,
        ensures
            g.spec_board()@ == drawn_start(pair as int, coin1 as int, coin2 as int),
            g.spec_player() == Player::Player,
            slide_fits(g.spec_board()@),
            0 <= cell_pair_list()[pair as int].0 < cell_pair_list()[pair as int].1 < 16,
    {
        proof {
            lemma_cell_pair_count();
        }
        let pairs = cell_pairs();
        let (first, second) = pairs[pair];
        assert(pairs@[pair as int].0 < pairs@[pair as int].1 < 16);
        let first_val: usize = if coin1 == 0 {
            2
        } else {
            4
        };
        let second_val: usize = if coin2 == 0 {
            2
        } else {
            4
        };
        Self::with_two_tiles(first, second, first_val, second_val)
    }

    /// Starts a game: two tiles, each 2 or 4 with equal chance, on two different cells
    /// drawn uniformly among all pairs of cells; the mover acts first.
    pub fn init_game(rng: &mut ThreadRng) -> (g: GameState)
        ensures
            g.spec_player() == Player::Player,
            slide_fits(g.spec_board()@),
            exists|i: int, j: int, vi: int, vj: int|
                0 <= i < j < 16 && (vi == 2 || vi == 4) && (vj == 2 || vj == 4)
                    && g.spec_board()@ == two_tile_board(i, j, vi, vj),
            exists|pair: int, coin1: int, coin2: int|
                0 <= pair < 120 && 0 <= coin1 < 2 && 0 <= coin2 < 2 && g.spec_board()@
                    == drawn_start(pair, coin1, coin2),
    {
        proof {
            lemma_cell_pair_count();
        }
        let pair = random_below(rng, 120);
        let coin1 = random_below(rng, 2);
        let coin2 = random_below(rng, 2);
        Self::from_draws(pair, coin1, coin2)
    }

    /// The row-major indices of the empty cells, in increasing order.
    pub fn empty_cell_indices(&self) -> (v: Vec<usize>)
        ensures
            v@.len() == empty_list(self.spec_board()@, 16).len(),
            forall|q: int| 0 <= q < v@.len() ==> v@[q] as int == empty_list(self.spec_board()@, 16)[q],
    {
        let ghost b = self.board@;
        let mut empty: Vec<usize> = Vec::new();
        for k in 0..BOARD_SIZE
            invariant
                b == self.board@,
                empty@.len() == empty_list(b, k as int).len(),
                forall|q: int| 0 <= q < empty@.len() ==> empty@[q] as int == empty_list(b, k as int)[q],
        {
            if self.board.0[k] == 0 {
                empty.push(k);
            }
            assert(forall|q: int| 0 <= q < empty@.len() ==> empty@[q] as int == empty_list(b, k + 1)[q]);
        }
        empty
    }

    /// The action picked by the draws `k` and `coin`. For the mover: the `k`-th of its
    /// listed actions. For the environment: on the `k`-th empty cell in row-major order,
    /// a tile of value 2 when `coin` is 0 and of value 4 otherwise; this is entry
    /// `2 * k` or `2 * k + 1` of its list. `None` when `k` is past the end, so that a
    /// uniform `k` below the number of choices, and a fair coin, give a uniform draw.
    pub fn action_for_draws(&self, k: usize, coin: usize) -> (r: Option<Action>)
        ensures
            r == drawn_action(self.spec_board()@, self.spec_player(), k as int, coin as int),
    {
        let ghost b = self.board@;
        match self.player {
            Player::Player => {
                let actions = self.get_all_actions();
                if k < actions.len() {
                    Some(actions[k])
                } else {
                    None
                }
            },
            Player::Environment => {
                let empty = self.empty_cell_indices();
                if k < empty.len() {
                    let cell = empty[k];
                    proof {
                        lemma_environment_actions_shape(b, 16);
                        assert(cell as int == empty_list(b, 16)[k as int]);
                    }
                    let val: usize = if coin == 0 {
                        2
                    } else {
                        4
                    };
                    let placement = Placement { row: (cell / SIDE) as u8, col: (cell % SIDE) as u8 };
                    Some(Action::EnvironmentAction(EnvironmentAction { placement, val }))
                } else {
                    None
                }
            },
        }
    }

    /// Draws an action uniformly from those the side to act may take; `None` exactly
    /// when there is none. For the environment the cell and the value are drawn on
    /// their own, which is the same as a uniform draw over the pairs since both values
    /// are equally likely.
    pub fn get_random_action(&self, rng: &mut ThreadRng) -> (r: Option<Action>)
        ensures
            r is None <==> legal_actions(self.spec_board()@, self.spec_player()).len() == 0,
            r matches Some(a) ==> legal_actions(self.spec_board()@, self.spec_player()).contains(
                a,
            ),
            exists|k: int, coin: int|
                0 <= k && 0 <= coin < 2 && r == drawn_action(
                    self.spec_board()@,
                    self.spec_player(),
                    k,
                    coin,
                ),
    {
        let ghost b = self.board@;
        let ghost p = self.player;
        proof {
            lemma_environment_actions_shape(b, 16);
        }
        let n = match self.player {
            Player::Player => self.get_all_actions().len(),
            Player::Environment => self.empty_cell_indices().len(),
        };
        if n == 0 {
            assert(drawn_action(b, p, 0, 0) is None);
            return None;
        }
        let k = random_below(rng, n);
        let coin = random_below(rng, 2);
        let r = self.action_for_draws(k, coin);
        proof {
            lemma_drawn_action_is_listed(b, p, k as int, coin as int);
        }
        r
    }
}

impl engine::GameState for GameState {
    type TakeActionError = IllegalActionError;

    type Action = Action;

    open spec fn legal_actions(&self) -> Seq<Action> {
        legal_actions(self.spec_board()@, self.spec_player())
    }

    open spec fn has_capacity(&self) -> bool {
        slide_fits(self.spec_board()@)
    }

    fn get_all_actions(&self) -> (r: Vec<Action>) {
        GameState::get_all_actions(self)
    }

    fn take_action_mut(&mut self, action: Action) -> Result<(), IllegalActionError> {
        GameState::take_action_mut(self, action)
    }
}

} // verus!
