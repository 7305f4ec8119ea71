use vstd::prelude::*;

use crate::board::{lemma_drop_wins_for_mover, Board};
use crate::color::Color;
use crate::error::GameError;
use crate::player::Player;
use vstd::arithmetic::div_mod::lemma_small_mod;

verus! {

/// The number of pieces in a row that a team needs to win.
pub const AMOUNT_TO_WIN: usize = 4;

/// How a game that ran to its end came out.
#[derive(Debug, PartialEq, Eq, Structural, Clone, Copy)]
pub enum Outcome {
    /// A team made a run; the color is the team's.
    Win(Color),
    /// The board filled up without a run.
    Tie,
}

/// The indices below `n` of the players that hold color `c`, in increasing order.
pub open spec fn indices_with(colors: Seq<Color>, c: Color, n: int) -> Seq<usize>
    decreases n,
{
    if n <= 0 {
        Seq::empty()
    } else if colors[n - 1] == c {
        indices_with(colors, c, n - 1).push((n - 1) as usize)
    } else {
        indices_with(colors, c, n - 1)
    }
}

/// The indices of all players that hold color `c`, in increasing order.
pub open spec fn team_of(colors: Seq<Color>, c: Color) -> Seq<usize> {
    indices_with(colors, c, colors.len() as int)
}

/// `boards` is a stretch of play: each board follows the one before it by
/// one piece of the player at the same place in `movers`, the players take
/// their turns in order, and every board reached after the first but before
/// the last had no run of `k` and was not full. Where `checked`, neither
/// had the last one, if it was reached by a move.
pub open spec fn is_play(boards: Seq<Board>, movers: Seq<int>, colors: Seq<Color>, k: int, checked: bool) -> bool {
    &&& boards.len() == movers.len() + 1
    &&& forall|i: int| 0 <= i < movers.len() ==> 0 <= #[trigger] movers[i] < colors.len()
        && boards[i].drops_to(boards[i + 1], colors[movers[i]])
    &&& forall|i: int| 0 < i < movers.len() ==> #[trigger] movers[i] == (movers[i - 1] + 1) % (colors.len() as int)
    &&& forall|i: int| 1 <= i < boards.len() - 1 ==> (#[trigger] boards[i]).winner(k) is None && !boards[i].full()
    &&& (checked && boards.len() > 1 ==> boards.last().winner(k) is None && !boards.last().full())
}

/// A game between players that take turns in order, each on the team of its color.
pub struct Game<P: Player> {
    board: Board,
    players: Vec<P>,
    player_colors: Vec<Color>,
    current_player_index: usize,
    amount_to_win: usize,
    started: bool,
    ended: bool,
    winner_indices: Option<Vec<usize>>,
}

impl<P: Player> Game<P> {
    pub closed spec fn board_spec(&self) -> Board {
        self.board
    }

    pub closed spec fn colors(&self) -> Seq<Color> {
        self.player_colors@
    }

    pub closed spec fn num_players(&self) -> nat {
        self.players@.len()
    }

    pub closed spec fn player_list(&self) -> Seq<P> {
        self.players@
    }

    pub closed spec fn current(&self) -> int {
        self.current_player_index as int
    }

    pub closed spec fn amount(&self) -> int {
        self.amount_to_win as int
    }

    pub closed spec fn is_started(&self) -> bool {
        self.started
    }

    pub closed spec fn is_ended(&self) -> bool {
        self.ended
    }

    pub closed spec fn winners(&self) -> Option<Seq<usize>> {
        match self.winner_indices {
            Some(v) => Some(v@),
            None => None,
        }
    }

    /// Each player has a color, the current player is one of them, and the board is well formed.
    pub closed spec fn wf(&self) -> bool {
        &&& self.board.wf()
        &&& self.players@.len() == self.player_colors@.len()
        &&& (self.players@.len() > 0 ==> self.current_player_index < self.players@.len())
        &&& (self.players@.len() == 0 ==> self.current_player_index == 0)
        &&& (!self.ended ==> self.winner_indices is None)
        &&& (self.winner_indices is Some ==> forall|i: int|
            0 <= i < self.winner_indices->0@.len() ==> #[trigger] self.winner_indices->0@[i] < self.players@.len())
    }

    /// `boards` and `movers` are the play that led from `before` to this game,
    /// which has the same players, colors and threshold; the first mover is
    /// the player whose turn it was, and pieces already on the board stay.
    pub open spec fn played_as(&self, before: Self, boards: Seq<Board>, movers: Seq<int>, checked: bool) -> bool {
        &&& is_play(boards, movers, self.colors(), self.amount(), checked)
        &&& boards[0] == before.board_spec()
        &&& boards.last() == self.board_spec()
        &&& (movers.len() > 0 ==> movers[0] == before.current())
        &&& self.board_spec().num_rows == before.board_spec().num_rows
        &&& self.board_spec().num_columns == before.board_spec().num_columns
        &&& self.board_spec().row_height == before.board_spec().row_height
        &&& self.board_spec().column_width == before.board_spec().column_width
        &&& (before.board_spec().settled() ==> self.board_spec().settled())
        &&& forall|i: int, j: int|
            0 <= i < before.board_spec().num_rows && 0 <= j < before.board_spec().num_columns
                && before.board_spec().cell(i, j) is Some
                ==> #[trigger] self.board_spec().cell(i, j) == before.board_spec().cell(i, j)
    }

    /// How the game loop went from `before` to this game and stopped with `r`.
    /// It stopped at the first board with a run or without room, or at the
    /// first failed turn, which added no piece. After a win or a tie the turn
    /// stays with the last mover; after a failure it stays with the player that failed.
    pub open spec fn played_from(&self, before: Self, r: Result<Outcome, GameError>) -> bool {
        exists|boards: Seq<Board>, movers: Seq<int>|
            #[trigger] self.played_as(before, boards, movers, r is Err) && {
                &&& (r is Ok ==> movers.len() > 0 && self.current() == movers.last())
                &&& (r is Err && movers.len() > 0 ==> self.current() == (movers.last() + 1) % (self.num_players() as int))
                &&& (r is Err && movers.len() == 0 ==> self.current() == before.current())
            }
    }

    /// What holds after the game loop stopped with `r`.
    pub open spec fn finished_with(&self, r: Result<Outcome, GameError>) -> bool {
        match r {
            Ok(Outcome::Win(c)) => {
                &&& self.is_ended()
                &&& self.board_spec().winner(self.amount()) == Some(c)
                &&& self.winners() == Some(team_of(self.colors(), c))
            },
            Ok(Outcome::Tie) => {
                &&& self.is_ended()
                &&& self.board_spec().winner(self.amount()) is None
                &&& self.board_spec().full()
                &&& self.winners() is None
            },
            Err(_) => !self.is_ended() && self.winners() is None,
        }
    }

    /// Sets up a game that has not started. Without a board, the game is
    /// played on an empty board of 6 rows and 7 columns. Fails where the
    /// players and their colors differ in number.
    pub fn new(board: Option<Board>, players: Vec<P>, player_colors: Vec<Color>) -> (r: Result<Self, GameError>)
        requires
            board matches Some(b) ==> b.wf(),
        ensures
            r is Err <==> players@.len() != player_colors@.len(),
            r is Err ==> r == Err::<Self, GameError>(GameError::InvalidConfiguration),
            r matches Ok(g) ==> {
                &&& g.wf()
                &&& g.colors() == player_colors@
                &&& g.num_players() == players@.len()
                &&& g.player_list() == players@
                &&& g.board_spec().wf()
                &&& g.current() == 0
                &&& g.amount() == AMOUNT_TO_WIN
                &&& !g.is_started()
                &&& !g.is_ended()
                &&& g.winners() is None
                &&& (board matches Some(b) ==> g.board_spec() == b)
                &&& (board is None ==> {
                    &&& g.board_spec().num_rows == 6
                    &&& g.board_spec().num_columns == 7
                    &&& g.board_spec().row_height == 3
                    &&& g.board_spec().column_width == 7
                    &&& g.board_spec().settled()
                    &&& forall|row: int, col: int| 0 <= row < 6 && 0 <= col < 7 ==> g.board_spec().cell(row, col) is None
                })
            },
    {
        if players.len() != player_colors.len() {
            return Err(GameError::InvalidConfiguration);
        }
        let board = match board {
            Some(b) => b,
            None => Board::new(6, 7, 3, 7),
        };
        Ok(Game {
            board,
            players,
            player_colors,
            current_player_index: 0,
            amount_to_win: AMOUNT_TO_WIN,
            started: false,
            ended: false,
            winner_indices: None,
        })
    }

    /// The board the game is played on.
    pub fn board(&self) -> (r: &Board)
        ensures
            *r == self.board_spec(),
    {
        &self.board
    }

    /// The players, in turn order.
    pub fn players(&self) -> (r: &Vec<P>)
        ensures
            r@ == self.player_list(),
    {
        &self.players
    }

    /// The index of the player whose turn it is.
    pub fn current_player_index(&self) -> (r: usize)
        ensures
            r == self.current(),
    {
        self.current_player_index
    }

    /// Whether the game has started.
    pub fn started(&self) -> (r: bool)
        ensures
            r == self.is_started(),
    {
        self.started
    }

    /// Whether the game has ended.
    pub fn ended(&self) -> (r: bool)
        ensures
            r == self.is_ended(),
    {
        self.ended
    }

    /// The indices of the players on the winning team, once a team has won.
    pub fn winner_indices(&self) -> (r: Option<&Vec<usize>>)
        ensures
            r matches Some(v) ==> self.winners() == Some(v@),
            r is None ==> self.winners() is None,
    {
        self.winner_indices.as_ref()
    }

    /// The names of the players on the winning team, in turn order; empty
    /// while no team has won.
    pub fn winner_names(&self) -> (r: Vec<String>)
        requires
            self.wf(),
        ensures
            self.winners() is None ==> r@.len() == 0,
            self.winners() matches Some(w) ==> r@.len() == w.len(),
    {
        let mut names: Vec<String> = Vec::new();
        match &self.winner_indices {
            None => {},
            Some(indices) => {
                let mut i: usize = 0;
                while i < indices.len()
                    invariant
                        self.wf(),
                        self.winner_indices == Some(*indices),
                        i <= indices@.len(),
                        names@.len() == i,
                    decreases indices@.len() - i,
                {
                    let index = indices[i];
                    assert(self.winner_indices->0@[i as int] < self.players@.len());
                    names.push(self.players[index].get_name());
                    i += 1;
                }
            },
        }
        names
    }

    /// The color of the player whose turn it is.
    fn get_current_color(&self) -> (r: Color)
        requires
            self.wf(),
            self.num_players() > 0,
        ensures
            r == self.colors()[self.current()],
    {
        self.player_colors[self.current_player_index]
    }

    /// The indices of all players with color `color`, in increasing order.
    fn get_player_indices_with_color(&self, color: Color) -> (r: Vec<usize>)
        ensures
            r@ == team_of(self.colors(), color),
            forall|k: int| 0 <= k < r@.len() ==> #[trigger] r@[k] < self.colors().len(),
    {
        let mut indices: Vec<usize> = Vec::new();
        let mut i: usize = 0;
        while i < self.player_colors.len()
            invariant
                i <= self.player_colors@.len(),
                indices@ == indices_with(self.player_colors@, color, i as int),
                forall|k: int| 0 <= k < indices@.len() ==> #[trigger] indices@[k] < i,
            decreases self.player_colors@.len() - i,
        {
            if self.player_colors[i] == color {
                indices.push(i);
            }
            i += 1;
        }
        indices
    }

    /// Passes the turn to the next player, wrapping around after the last.
    fn switch_turn(&mut self)
        requires
            old(self).wf(),
            old(self).num_players() > 0,
        ensures
            final(self).wf(),
            final(self).current() == (old(self).current() + 1) % (old(self).num_players() as int),
            final(self).board_spec() == old(self).board_spec(),
            final(self).colors() == old(self).colors(),
            final(self).num_players() == old(self).num_players(),
            final(self).player_list() == old(self).player_list(),
            final(self).amount() == old(self).amount(),
            final(self).is_started() == old(self).is_started(),
            final(self).is_ended() == old(self).is_ended(),
            final(self).winners() == old(self).winners(),
    {
        let ghost n = self.players@.len();
        if self.current_player_index == self.players.len() - 1 {
            self.current_player_index = 0;
            assert(n % n == 0) by (nonlinear_arith)
                requires
                    n > 0,
            ;
        } else {
            proof {
                lemma_small_mod((self.current_player_index + 1) as nat, n);
            }
            self.current_player_index += 1;
        }
    }

    /// Asks the current player for a column and drops a piece of its color there.
    fn take_turn(&mut self) -> (r: Result<(), GameError>)
        requires
            old(self).wf(),
            old(self).num_players() > 0,
        ensures
            final(self).wf(),
            final(self).current() == old(self).current(),
            final(self).colors() == old(self).colors(),
            final(self).num_players() == old(self).num_players(),
            final(self).player_list() == old(self).player_list(),
            final(self).amount() == old(self).amount(),
            final(self).is_started() == old(self).is_started(),
            final(self).is_ended() == old(self).is_ended(),
            final(self).winners() == old(self).winners(),
            r is Ok ==> final(self).board_spec().empty_cells() + 1 == old(self).board_spec().empty_cells(),
            r is Ok ==> old(self).board_spec().drops_to(final(self).board_spec(), old(self).colors()[old(self).current()]),
            r is Err ==> final(self).board_spec() == old(self).board_spec(),
            r matches Err(e) ==> e is InvalidColumn || e is PlayerFailure,
            old(self).board_spec().settled() ==> final(self).board_spec().settled(),
            forall|i: int, j: int|
                0 <= i < old(self).board_spec().num_rows && 0 <= j < old(self).board_spec().num_columns
                    && old(self).board_spec().cell(i, j) is Some
                    ==> #[trigger] final(self).board_spec().cell(i, j) == old(self).board_spec().cell(i, j),
    {
        let color = self.get_current_color();
        let choice = self.players[self.current_player_index].get_column_index(&self.board, color);
        let col_index = match choice {
            Ok(c) => c,
            Err(msg) => return Err(GameError::PlayerFailure(msg)),
        };
        self.board.drop_piece(color, col_index)
    }

    /// Ends the game with a win of the team of `color`.
    fn handle_win(&mut self, color: Color)
        requires
            old(self).wf(),
        ensures
            final(self).wf(),
            final(self).is_ended(),
            final(self).winners() == Some(team_of(old(self).colors(), color)),
            final(self).board_spec() == old(self).board_spec(),
            final(self).colors() == old(self).colors(),
            final(self).num_players() == old(self).num_players(),
            final(self).player_list() == old(self).player_list(),
            final(self).current() == old(self).current(),
            final(self).amount() == old(self).amount(),
            final(self).is_started() == old(self).is_started(),
    {
        self.ended = true;
        let winners = self.get_player_indices_with_color(color);
        self.winner_indices = Some(winners);
    }

    /// Ends the game in a tie.
    fn handle_tie(&mut self)
        requires
            old(self).wf(),
        ensures
            final(self).wf(),
            final(self).is_ended(),
            final(self).winners() == old(self).winners(),
            final(self).board_spec() == old(self).board_spec(),
            final(self).colors() == old(self).colors(),
            final(self).num_players() == old(self).num_players(),
            final(self).player_list() == old(self).player_list(),
            final(self).current() == old(self).current(),
            final(self).amount() == old(self).amount(),
            final(self).is_started() == old(self).is_started(),
    {
        self.ended = true;
    }

    /// Plays turns until a team wins or the board is full. Each turn the
    /// current player chooses a column and a piece of its color drops there;
    /// then the board is checked for a run, then for being full; otherwise the
    /// turn passes to the next player.
    ///
    /// Fails without playing where the game has not started or has ended,
    /// or has no players; stops with an error where a player fails or
    /// chooses a column that cannot take a piece, and that turn leaves the
    /// board as it was.
    pub fn resume(&mut self) -> (r: Result<Outcome, GameError>)
        requires
            old(self).wf(),
        ensures
            final(self).wf(),
            r == Err::<Outcome, GameError>(GameError::LifecycleViolation)
                <==> (!old(self).is_started() || old(self).is_ended()),
            r == Err::<Outcome, GameError>(GameError::InvalidConfiguration)
                <==> (old(self).is_started() && !old(self).is_ended() && old(self).num_players() == 0),
            r is Err && (r == Err::<Outcome, GameError>(GameError::LifecycleViolation)
                || r == Err::<Outcome, GameError>(GameError::InvalidConfiguration)) ==> *final(self) == *old(self),
            final(self).colors() == old(self).colors(),
            final(self).num_players() == old(self).num_players(),
            final(self).player_list() == old(self).player_list(),
            final(self).amount() == old(self).amount(),
            final(self).is_started() == old(self).is_started(),
            old(self).is_started() && !old(self).is_ended() ==> final(self).finished_with(r),
            old(self).is_started() && !old(self).is_ended() && old(self).num_players() > 0
                ==> final(self).played_from(*old(self), r),
            old(self).is_started() && !old(self).is_ended() && old(self).board_spec().winner(old(self).amount()) is None
                ==> (r matches Ok(Outcome::Win(c)) ==> c == final(self).colors()[final(self).current()]),
    {
        if !self.started {
            return Err(GameError::LifecycleViolation);
        } else if self.ended {
            return Err(GameError::LifecycleViolation);
        }
        if self.players.len() == 0 {
            return Err(GameError::InvalidConfiguration);
        }
        let ghost boards: Seq<Board> = seq![self.board];
        let ghost movers: Seq<int> = Seq::empty();
        proof {
            assert(is_play(boards, movers, self.colors(), self.amount(), true));
            assert(self.played_as(*old(self), boards, movers, true));
        }
        loop
            invariant
                self.wf(),
                self.num_players() > 0,
                old(self).is_started(),
                !old(self).is_ended(),
                old(self).num_players() > 0,
                self.is_started(),
                !self.is_ended(),
                self.winners() == old(self).winners(),
                self.colors() == old(self).colors(),
                self.num_players() == old(self).num_players(),
                self.player_list() == old(self).player_list(),
                self.amount() == old(self).amount(),
                self.played_as(*old(self), boards, movers, true),
                movers.len() > 0 ==> self.current() == (movers.last() + 1) % (self.num_players() as int),
                movers.len() == 0 ==> self.current() == old(self).current(),
            decreases self.board_spec().empty_cells(),
        {
            let ghost before = *self;
            assert(before.board_spec().winner(self.amount()) is None || before.board_spec() == old(self).board_spec());
            let turn = self.take_turn();
            match turn {
                Err(e) => {
                    proof {
                        assert(self.played_as(*old(self), boards, movers, true));
                    }
                    return Err(e);
                },
                Ok(()) => {},
            }
            proof {
                let nb = boards.push(self.board_spec());
                let nm = movers.push(before.current());
                assert(nb[nb.len() - 2] == before.board_spec());
                assert forall|i: int| 0 <= i < nm.len() implies 0 <= #[trigger] nm[i] < self.colors().len()
                    && nb[i].drops_to(nb[i + 1], self.colors()[nm[i]]) by {
                    if i < movers.len() {
                        assert(nb[i] == boards[i] && nb[i + 1] == boards[i + 1] && nm[i] == movers[i]);
                    }
                }
                assert forall|i: int| 0 < i < nm.len() implies #[trigger] nm[i] == (nm[i - 1] + 1) % (self.colors().len() as int) by {
                    if i < movers.len() {
                        assert(nm[i] == movers[i] && nm[i - 1] == movers[i - 1]);
                    }
                }
                assert forall|i: int| 1 <= i < nb.len() - 1 implies (#[trigger] nb[i]).winner(self.amount()) is None && !nb[i].full() by {
                    assert(nb[i] == boards[i]);
                }
                boards = nb;
                movers = nm;
                assert(self.played_as(*old(self), boards, movers, false));
            }
            let found = self.board.get_winning_color(self.amount_to_win);
            match found {
                Some(color) => {
                    proof {
                        if old(self).board_spec().winner(old(self).amount()) is None {
                            lemma_drop_wins_for_mover(
                                before.board_spec(),
                                self.board_spec(),
                                self.colors()[self.current()],
                                self.amount(),
                            );
                        }
                    }
                    self.handle_win(color);
                    let r = Ok(Outcome::Win(color));
                    assert(self.played_as(*old(self), boards, movers, r is Err));
                    return r;
                },
                None => {},
            }
            if self.board.is_full() {
                self.handle_tie();
                let r = Ok(Outcome::Tie);
                assert(self.played_as(*old(self), boards, movers, r is Err));
                return r;
            }
            proof {
                assert(self.played_as(*old(self), boards, movers, true));
            }
            self.switch_turn();
        }
    }

    /// Starts the game and plays it as `resume` does. Fails where the game
    /// has already started or has ended.
    pub fn start(&mut self) -> (r: Result<Outcome, GameError>)
        requires
            old(self).wf(),
        ensures
            final(self).wf(),
            r == Err::<Outcome, GameError>(GameError::LifecycleViolation)
                <==> (old(self).is_started() || old(self).is_ended()),
            r == Err::<Outcome, GameError>(GameError::LifecycleViolation) ==> *final(self) == *old(self),
            r == Err::<Outcome, GameError>(GameError::InvalidConfiguration)
                <==> (!old(self).is_started() && !old(self).is_ended() && old(self).num_players() == 0),
            final(self).colors() == old(self).colors(),
            final(self).num_players() == old(self).num_players(),
            final(self).amount() == old(self).amount(),
            final(self).player_list() == old(self).player_list(),
            !old(self).is_started() && !old(self).is_ended() ==> final(self).is_started() && final(self).finished_with(r),
            !old(self).is_started() && !old(self).is_ended() && old(self).num_players() > 0
                ==> final(self).played_from(*old(self), r),
            !old(self).is_started() && !old(self).is_ended() && old(self).board_spec().winner(old(self).amount()) is None
                ==> (r matches Ok(Outcome::Win(c)) ==> c == final(self).colors()[final(self).current()]),
    {
        if self.started {
            return Err(GameError::LifecycleViolation);
        } else if self.ended {
            return Err(GameError::LifecycleViolation);
        }
        self.started = true;
        let ghost ready = *self;
        let r = self.resume();
        proof {
            if old(self).num_players() > 0 {
                let (boards, movers) = choose|boards: Seq<Board>, movers: Seq<int>|
                    #[trigger] self.played_as(ready, boards, movers, r is Err) && {
                        &&& (r is Ok ==> movers.len() > 0 && self.current() == movers.last())
                        &&& (r is Err && movers.len() > 0 ==> self.current() == (movers.last() + 1) % (self.num_players() as int))
                        &&& (r is Err && movers.len() == 0 ==> self.current() == ready.current())
                    };
                assert(self.played_as(*old(self), boards, movers, r is Err));
            }
        }
        r
    }
}

} // verus!
