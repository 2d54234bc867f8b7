//! Shared mutable state of the bot: warnings, notes and the running
//! number-guessing games, all keyed by chat (and user) identifiers.
//! The surrounding program wraps one [`BotState`] in its lock.

use vstd::prelude::*;

verus! {

/// All per-chat data the bot keeps between messages.
#[derive(Debug, Default)]
pub struct BotState {
    /// `(chat_id, user_id)` to the list of warning reasons.
    pub warnings: std::collections::HashMap<(i64, i64), Vec<String>>,
    /// `(chat_id, note_name)` to the note's content.
    pub notes: std::collections::HashMap<(i64, String), String>,
    /// `chat_id` to the active number-guessing game.
    pub games: std::collections::HashMap<i64, NumberGame>,
}

/// One running number-guessing game.
#[derive(Debug)]
pub struct NumberGame {
    pub secret: u32,
    pub attempts: u32,
    pub max_attempts: u32,
    pub _player_id: i64,
    pub player_name: String,
}

/// The decision of one guess.
#[derive(Clone, Copy, Debug, PartialEq, Eq, Structural)]
pub enum GuessOutcome {
    /// The guess names the secret: the game is won and over.
    Correct,
    /// A wrong guess on the last allowed attempt: the game is lost
    /// and over.
    OutOfAttempts,
    /// A wrong guess below the secret; the game goes on.
    TooLow,
    /// A wrong guess above the secret; the game goes on.
    TooHigh,
}

impl NumberGame {
    /// A fresh game: a random secret between 1 and 100, no attempts
    /// used, seven allowed.  Whatever the draw was, the secret lies
    /// in range.
    pub fn start(player_id: i64, player_name: String) -> (g: NumberGame)
        ensures
            1 <= g.secret <= 100,
            g.attempts == 0,
            g.max_attempts == 7,
            g._player_id == player_id,
            g.player_name == player_name,
    {
        let draw = crate::command::random_below(100);
        NumberGame {
            secret: (draw as u32) + 1,
            attempts: 0,
            max_attempts: 7,
            _player_id: player_id,
            player_name: player_name,
        }
    }

    /// Count one guess and decide it: naming the secret wins; a wrong
    /// guess on the last allowed attempt loses; any other wrong guess
    /// hints at the direction.  Only the attempt counter changes.
    pub fn guess_step(&mut self, guess: u32) -> (r: GuessOutcome)
        requires
            old(self).attempts < old(self).max_attempts,
        ensures
            final(self).secret == old(self).secret,
            final(self).max_attempts == old(self).max_attempts,
            final(self).player_name == old(self).player_name,
            final(self)._player_id == old(self)._player_id,
            final(self).attempts == old(self).attempts + 1,
            r == (if guess == old(self).secret {
                GuessOutcome::Correct
            } else if old(self).attempts + 1 >= old(self).max_attempts {
                GuessOutcome::OutOfAttempts
            } else if guess < old(self).secret {
                GuessOutcome::TooLow
            } else {
                GuessOutcome::TooHigh
            }),
            (r is Correct || r is OutOfAttempts) <==> (guess == old(self).secret
                || final(self).attempts >= final(self).max_attempts),
    {
        self.attempts = self.attempts + 1;
        if guess == self.secret {
            GuessOutcome::Correct
        } else if self.attempts >= self.max_attempts {
            GuessOutcome::OutOfAttempts
        } else if guess < self.secret {
            GuessOutcome::TooLow
        } else {
            GuessOutcome::TooHigh
        }
    }
}

} // verus!
