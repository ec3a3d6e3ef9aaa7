//! What the game's screens decide: the start options, which menu item a
//! scroll lands on, what the credit line shows, and the buttons of a
//! confirm dialog.
use vstd::prelude::*;
use crate::game_player::janggu_state_with_tick::{JangguStateWithTick, JangguStickStateWithTick};
use crate::janggu::JangguFace;
use crate::game_player::timing_judge::abs_int;
use crate::controller::coins_plus;
use crate::controller_wrapper::ControllerWrapper;
use crate::constants::{STAGES_PER_GAME, TUTORIAL_TIMEOUT_SECS};

verus! {

/// Options of the game, from the command line: the window, and the price
/// of a game in coins.
#[derive(Debug, Clone, Copy, PartialEq, Eq, Structural)]
pub struct InitGameOptions {
    pub width: Option<u32>,
    pub height: Option<u32>,
    pub fullscreen: bool,
    pub vsync: bool,
    pub price: u32,
}

impl InitGameOptions {
    /// The window size: the width and height given in the options, and the
    /// display's own where an option is not given.
    pub fn window_size(&self, display_width: u32, display_height: u32) -> (r: (u32, u32))
        ensures
            r.0 == (match self.width {
                Some(w) => w,
                None => display_width,
            }),
            r.1 == (match self.height {
                Some(h) => h,
                None => display_height,
            }),
    {
        let w = match self.width {
            Some(w) => w,
            None => display_width,
        };
        let h = match self.height {
            Some(h) => h,
            None => display_height,
        };
        (w, h)
    }
}

/// The buttons of a confirm dialog.
#[derive(Debug, Clone, Copy, PartialEq, Eq, Structural)]
pub enum DialogButton {
    Yes,
    No,
}

/// Brings a menu position into `0..max_excluding`, counting around: the
/// remainder of `val` divided by `max_excluding` (taken as an `i32`), never
/// negative.
pub fn fit_into_number_range(val: i32, max_excluding: usize) -> (r: usize)
    requires
        (max_excluding as i32) > 0 || ((max_excluding as i32) < 0 && val >= 0),
    ensures
        r as int == (val as int) % ((max_excluding as i32) as int),
        (r as int) < abs_int((max_excluding as i32) as int),
{
    let m: i32 = max_excluding as i32;
    // the remainder as `%` computes it on an `i32`: it takes the sign of `val`
    let mut tmp: i32 = match val.checked_rem(m) {
        Some(t) => t,
        None => 0,
    };
    if m < 0 {
        // `val` is not negative here, so neither is the remainder
        proof {
            lemma_rem_negative_divisor(val as int, m as int, tmp as int);
        }
        tmp = match tmp.checked_rem(m) {
            Some(t) => t,
            None => 0,
        };
        return tmp as usize;
    }
    proof {
        lemma_trunc_rem(val as int, m as int, tmp as int);
    }
    while tmp < 0
        invariant
            m > 0,
            -m < tmp < m,
            (tmp - val) % (m as int) == 0,
        decreases m - tmp,
    {
        proof {
            lemma_shift_mod(tmp as int, val as int, m as int);
        }
        tmp = tmp + m;
    }
    proof {
        lemma_small_mod(tmp as int, val as int, m as int);
    }
    tmp = match tmp.checked_rem(m) {
        Some(t) => t,
        None => 0,
    };
    tmp as usize
}

proof fn lemma_rem_negative_divisor(v: int, m: int, t: int)
    requires
        m < 0,
        v >= 0,
        t == (if v == 0 { 0 } else { v % (m * -1) }),
    ensures
        0 <= t < -m,
        t == v % m,
        t % (m * -1) == t,
{
    vstd::arithmetic::div_mod::lemma_fundamental_div_mod(v, -m);
    let q = v / (-m);
    let r = v % (-m);
    assert(v == m * (-q) + r) by (nonlinear_arith)
        requires
            v == (-m) * q + r,
    ;
    vstd::arithmetic::div_mod::lemma_fundamental_div_mod(v, m);
    assert(0 <= v % m < -m);
    assert(v % m == r) by (nonlinear_arith)
        requires
            v == m * (-q) + r,
            v == m * (v / m) + v % m,
            0 <= r < -m,
            0 <= v % m < -m,
            m < 0,
    ;
    vstd::arithmetic::div_mod::lemma_small_mod(t as nat, (-m) as nat);
}

proof fn lemma_trunc_rem(v: int, m: int, t: int)
    requires
        m > 0,
        t == (if v == 0 {
            0
        } else if v > 0 {
            v % m
        } else {
            ((v * -1) % m) * -1
        }),
    ensures
        -m < t < m,
        (t - v) % m == 0,
{
    if v < 0 {
        vstd::arithmetic::div_mod::lemma_fundamental_div_mod(-v, m);
        assert(t - v == m * ((-v) / m)) by (nonlinear_arith)
            requires
                t == -((-v) % m),
                -v == m * ((-v) / m) + (-v) % m,
        ;
        vstd::arithmetic::div_mod::lemma_mod_multiples_basic((-v) / m, m);
        assert(m * ((-v) / m) == ((-v) / m) * m) by (nonlinear_arith);
    } else if v > 0 {
        vstd::arithmetic::div_mod::lemma_fundamental_div_mod(v, m);
        assert(t - v == -(m * (v / m)));
        vstd::arithmetic::div_mod::lemma_mod_multiples_basic(-(v / m), m);
        assert(-(m * (v / m)) == (-(v / m)) * m) by (nonlinear_arith);
    }
}

proof fn lemma_shift_mod(t: int, v: int, m: int)
    requires
        m > 0,
        (t - v) % m == 0,
    ensures
        (t + m - v) % m == 0,
{
    vstd::arithmetic::div_mod::lemma_mod_add_multiples_vanish(t - v, m);
}

proof fn lemma_small_mod(t: int, v: int, m: int)
    requires
        m > 0,
        0 <= t < m,
        (t - v) % m == 0,
    ensures
        t % m == t,
        t == v % m,
{
    vstd::arithmetic::div_mod::lemma_small_mod(t as nat, m as nat);
    vstd::arithmetic::div_mod::lemma_fundamental_div_mod(t - v, m);
    let q = (t - v) / m;
    assert(v == (-q) * m + t) by (nonlinear_arith)
        requires
            t - v == m * q + (t - v) % m,
            (t - v) % m == 0,
    ;
    vstd::arithmetic::div_mod::lemma_fundamental_div_mod_converse(v, m, -q, t);
}

/// What the credit line at the bottom of the screen shows.
#[derive(Debug, Clone, Copy, PartialEq, Eq, Structural)]
pub enum CreditDisplay {
    /// "FREE PLAY": a game costs nothing.
    FreePlay,
    /// "CREDIT: n": a game costs one coin and `n` coins are in.
    Credits(u32),
    /// "CREDIT: n (k/p)": a game costs `p` coins; `n` whole credits and `k`
    /// coins toward the next one are in.
    PartialCredits { credits: u32, coins: u32, price: u32 },
}

/// The credit line for `coins` inserted coins and a game price of `price`.
pub fn credit_display(coins: u32, price: u32) -> (r: CreditDisplay)
    ensures
        r == (if price == 0 {
            CreditDisplay::FreePlay
        } else if price == 1 {
            CreditDisplay::Credits(coins)
        } else {
            CreditDisplay::PartialCredits { credits: coins / price, coins: coins % price, price }
        }),
{
    if price == 0 {
        CreditDisplay::FreePlay
    } else if price == 1 {
        CreditDisplay::Credits(coins)
    } else {
        CreditDisplay::PartialCredits { credits: coins / price, coins: coins % price, price }
    }
}

/// Which way the song items are moving.
#[derive(Debug, Clone, Copy, PartialEq, Eq, Structural)]
pub enum MovingDirection {
    Left,
    Right,
    Stop,
}

/// The item after `selected` in a circle of `count` items.
pub open spec fn next_item(selected: int, count: int) -> int {
    if selected + 1 >= count { 0 } else { selected + 1 }
}

/// The item before `selected` in a circle of `count` items.
pub open spec fn previous_item(selected: int, count: int) -> int {
    if selected - 1 < 0 { count - 1 } else { selected - 1 }
}

/// The song menu: the selected song, and the move in progress, started by
/// a key press at `pressed_at` (milliseconds).
pub struct SongSelection {
    pub selected: i32,
    pub item_count: i32,
    pub direction: MovingDirection,
    pub pressed_at: u64,
}

impl SongSelection {
    pub open spec fn wf(&self) -> bool {
        0 <= self.selected < self.item_count
    }

    /// The first song selected, nothing moving.
    pub fn new(item_count: usize) -> (r: SongSelection)
        requires
            0 < item_count <= i32::MAX,
        ensures
            r.wf(),
            r.selected == 0,
            r.item_count == item_count,
            r.direction == MovingDirection::Stop,
    {
        SongSelection { selected: 0, item_count: item_count as i32, direction: MovingDirection::Stop, pressed_at: 0 }
    }

    /// A left or right key press at `now`: it starts a move that way, unless
    /// a move is in progress.
    pub fn press(&mut self, direction: MovingDirection, now: u64)
        ensures
            final(self).selected == old(self).selected,
            final(self).item_count == old(self).item_count,
            if old(self).direction == MovingDirection::Stop {
                final(self).direction == direction && final(self).pressed_at == now
            } else {
                final(self).direction == old(self).direction && final(self).pressed_at == old(self).pressed_at
            },
    {
        if self.direction == MovingDirection::Stop {
            self.direction = direction;
            self.pressed_at = now;
        }
    }

    /// The enter key selects the song unless a move is in progress.
    pub fn can_confirm(&self) -> (r: bool)
        ensures
            r == (self.direction == MovingDirection::Stop),
    {
        self.direction == MovingDirection::Stop
    }

    /// Advances the move at `now`: the items slide one millisecond-pixel per
    /// millisecond until they have moved `moving_distance`; then the move
    /// ends and the next song (moving left) or the previous one (moving
    /// right) is selected, around the circle. Returns how far the selected
    /// item is off its place (negative to the left).
    pub fn step(&mut self, now: u64, moving_distance: u32) -> (r: i64)
        requires
            old(self).wf(),
        ensures
            final(self).wf(),
            final(self).item_count == old(self).item_count,
            final(self).pressed_at == old(self).pressed_at,
            ({
                let elapsed = if now >= old(self).pressed_at { now - old(self).pressed_at } else { 0 };
                match old(self).direction {
                    MovingDirection::Stop => r == 0 && *final(self) == *old(self),
                    MovingDirection::Left => if elapsed <= moving_distance {
                        r == -elapsed && *final(self) == *old(self)
                    } else {
                        r == 0 && final(self).direction == MovingDirection::Stop
                            && final(self).selected == next_item(old(self).selected as int, old(self).item_count as int)
                    },
                    MovingDirection::Right => if elapsed <= moving_distance {
                        r == elapsed && *final(self) == *old(self)
                    } else {
                        r == 0 && final(self).direction == MovingDirection::Stop
                            && final(self).selected == previous_item(old(self).selected as int, old(self).item_count as int)
                    },
                }
            }),
    {
        let elapsed: u64 = if now >= self.pressed_at { now - self.pressed_at } else { 0 };
        match self.direction {
            MovingDirection::Stop => 0,
            MovingDirection::Left => {
                if elapsed <= moving_distance as u64 {
                    -(elapsed as i64)
                } else {
                    self.direction = MovingDirection::Stop;
                    self.selected = self.selected + 1;
                    if self.selected >= self.item_count {
                        self.selected = 0;
                    }
                    0
                }
            },
            MovingDirection::Right => {
                if elapsed <= moving_distance as u64 {
                    elapsed as i64
                } else {
                    self.direction = MovingDirection::Stop;
                    self.selected = self.selected - 1;
                    if self.selected < 0 {
                        self.selected = self.item_count - 1;
                    }
                    0
                }
            },
        }
    }

    /// The song shown at menu position `position` (the selected song is at
    /// its own index), around the circle.
    pub fn item_at(&self, position: i32) -> (r: usize)
        requires
            self.wf(),
        ensures
            r as int == (position as int) % (self.item_count as int),
    {
        fit_into_number_range(position, self.item_count as usize)
    }
}

/// Moving one song left and then one song right comes back to the same
/// song, and so does the other way round.
pub proof fn lemma_moves_undo(selected: int, count: int)
    requires
        0 <= selected < count,
    ensures
        previous_item(next_item(selected, count), count) == selected,
        next_item(previous_item(selected, count), count) == selected,
        0 <= next_item(selected, count) < count,
        0 <= previous_item(selected, count) < count,
{
}

/// What the player answers to "do the tutorial?" with the janggu: a stick
/// that just touched the left face says yes, one that just touched the
/// right face says no (the left face wins when both happen at once).
pub open spec fn tutorial_answer_of(janggu: JangguStateWithTick) -> Option<DialogButton> {
    let left = |s: JangguStickStateWithTick| s.is_keydown_now && s.face == Some(JangguFace::Gungpyeon);
    let right = |s: JangguStickStateWithTick| s.is_keydown_now && s.face == Some(JangguFace::Yeolpyeon);
    if left(janggu.gungchae) || left(janggu.yeolchae) {
        Some(DialogButton::Yes)
    } else if right(janggu.gungchae) || right(janggu.yeolchae) {
        Some(DialogButton::No)
    } else {
        None
    }
}

/// Reads the answer to the tutorial question from the janggu state.
pub fn tutorial_answer(janggu: &JangguStateWithTick) -> (r: Option<DialogButton>)
    ensures
        r == tutorial_answer_of(*janggu),
{
    let g = janggu.gungchae;
    let y = janggu.yeolchae;
    if (g.is_keydown_now && g.face == Some(JangguFace::Gungpyeon)) || (y.is_keydown_now && y.face == Some(
        JangguFace::Gungpyeon,
    )) {
        Some(DialogButton::Yes)
    } else if (g.is_keydown_now && g.face == Some(JangguFace::Yeolpyeon)) || (y.is_keydown_now && y.face
        == Some(JangguFace::Yeolpyeon)) {
        Some(DialogButton::No)
    } else {
        None
    }
}

/// The tutorial runs when the player said yes, and also when the question
/// timed out unanswered.
pub fn wants_tutorial(answer: Option<DialogButton>) -> (r: bool)
    ensures
        r == (answer != Some(DialogButton::No)),
{
    match answer {
        Some(DialogButton::No) => false,
        _ => true,
    }
}

/// The start key on the title screen: the game starts when the coins in
/// pay its price, and the price is then handed to the coin device to
/// consume.
pub fn start_game_if_paid(controller: &mut ControllerWrapper, price: u32) -> (r: bool)
    ensures
        r == (old(controller).coins >= price),
        final(controller).coins == old(controller).coins,
        final(controller).janggu_state == old(controller).janggu_state,
        final(controller).coins_to_consume == (if r {
            coins_plus(old(controller).coins_to_consume, price)
        } else {
            old(controller).coins_to_consume
        }),
{
    if controller.get_coins() >= price {
        controller.consume_coins(price);
        true
    } else {
        false
    }
}

/// One frame of the tutorial question, `elapsed_secs` after it appeared:
/// quitting answers no, running out of time answers yes (the tutorial is
/// then played), and otherwise the janggu may answer. `None` while the
/// question stays open.
pub fn tutorial_dialog_step(quit: bool, elapsed_secs: u64, janggu: &JangguStateWithTick) -> (r: Option<bool>)
    ensures
        r == (if quit {
            Some(false)
        } else if elapsed_secs > TUTORIAL_TIMEOUT_SECS {
            Some(true)
        } else {
            match tutorial_answer_of(*janggu) {
                Some(DialogButton::Yes) => Some(true),
                Some(DialogButton::No) => Some(false),
                None => None::<bool>,
            }
        }),
{
    if quit {
        return Some(false);
    }
    if elapsed_secs > TUTORIAL_TIMEOUT_SECS {
        return Some(true);
    }
    match tutorial_answer(janggu) {
        Some(DialogButton::Yes) => Some(true),
        Some(DialogButton::No) => Some(false),
        None => None,
    }
}

/// The seconds left to answer the tutorial question, shown in the dialog.
pub fn tutorial_seconds_left(elapsed_secs: u64) -> (r: u64)
    ensures
        r == (if elapsed_secs >= TUTORIAL_TIMEOUT_SECS { 0 } else { TUTORIAL_TIMEOUT_SECS - elapsed_secs }),
{
    if elapsed_secs >= TUTORIAL_TIMEOUT_SECS {
        0
    } else {
        TUTORIAL_TIMEOUT_SECS - elapsed_secs
    }
}

/// A paid game goes on to another song while fewer than three songs have
/// been played.
pub fn another_stage(stages_played: u32) -> (r: bool)
    ensures
        r == (stages_played < STAGES_PER_GAME),
{
    stages_played < STAGES_PER_GAME
}

/// The play of a song ends when the player quits, or, once the song has
/// started, when its music is no longer playing.
pub fn song_over(quit: bool, tick_now: i128, music_playing: bool) -> (r: bool)
    ensures
        r == (quit || (tick_now > 0 && !music_playing)),
{
    quit || (tick_now > 0 && !music_playing)
}

} // verus!
