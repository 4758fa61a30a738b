//! Lowering slicer G-code into typed controller commands.
//!
//! The lowerer keeps the modal state G-code depends on (absolute or relative
//! positioning, the current feed rate, the last commanded position of each
//! axis) and turns each word list into controller commands. Numbers arrive
//! already scaled: a word carries its value in thousandths (micrometres,
//! millidegrees) and as a feed rate in micrometres per second.

use vstd::prelude::*;
use crate::protocol::{Command, CommandModel, command_model};
use crate::text::{push_decimal, push_str, split_at_first, split_once, trim, trimmed, decimal};

verus! {

/// Why a G-code source could not be lowered.
#[derive(Debug, Clone, PartialEq, Eq)]
pub enum LoweringError {
    ParseError { line_number: usize, line: String, reason: String },
}

impl LoweringError {
    /// `G-code parse error at line <n> '<line>': <reason>`.
    pub fn to_message(&self) -> (text: String)
        ensures
            match *self {
                LoweringError::ParseError { line_number, line, reason } => text@
                    == "G-code parse error at line "@ + decimal(line_number as nat) + " '"@ + line@
                    + "': "@ + reason@,
            },
    {
        match self {
            LoweringError::ParseError { line_number, line, reason } => {
                let mut text = "G-code parse error at line ".to_owned();
                push_decimal(&mut text, *line_number as u64);
                push_str(&mut text, " '");
                push_str(&mut text, line.as_str());
                push_str(&mut text, "': ");
                push_str(&mut text, reason.as_str());
                text
            },
        }
    }
}

/// Lowering configuration: the feed rate before any `F` word and the names
/// of the hotend and bed heaters.
#[derive(Debug, Clone)]
pub struct LowererConfig {
    pub default_feed_rate_um_s: u64,
    pub hotend_name: String,
    pub bed_name: String,
}

impl Default for LowererConfig {
    fn default() -> (config: Self)
        ensures
            config.default_feed_rate_um_s == 10_000,
            config.hotend_name@ == "hotend_heater"@,
            config.bed_name@ == "bed_heater"@,
    {
        LowererConfig {
            default_feed_rate_um_s: 10_000,
            hotend_name: "hotend_heater".to_owned(),
            bed_name: "bed_heater".to_owned(),
        }
    }
}

/// One G-code word: its letter (upper case as parsed) and its value as the
/// lowerer uses it.
#[derive(Debug, Clone, Copy, PartialEq, Eq, Structural)]
pub struct GcodeWord {
    pub letter: char,
    /// The value truncated to an unsigned integer (the command number).
    pub code: u64,
    /// The value times 1000, truncated toward zero.
    pub thousandths: i64,
    /// The value read as millimetres per minute, in micrometres per second
    /// and at least 1.
    pub feed_um_s: u64,
}

/// The G-code lowerer and its modal state.
#[derive(Debug)]
pub struct GcodeLowerer {
    config: LowererConfig,
    current_feed_rate_um_s: u64,
    absolute_positioning: bool,
    /// Last commanded position of x, y, z and e, in micrometres.
    positions: [i64; 4],
}

/// The axis a letter moves: x, y, z, e (either case).
pub open spec fn axis_of(letter: char) -> Option<int> {
    if letter == 'X' || letter == 'x' {
        Some(0)
    } else if letter == 'Y' || letter == 'y' {
        Some(1)
    } else if letter == 'Z' || letter == 'z' {
        Some(2)
    } else if letter == 'E' || letter == 'e' {
        Some(3)
    } else {
        None
    }
}

/// The lowercase name of an axis.
pub open spec fn axis_name(axis: int) -> Seq<char> {
    if axis == 0 {
        seq!['x']
    } else if axis == 1 {
        seq!['y']
    } else if axis == 2 {
        seq!['z']
    } else {
        seq!['e']
    }
}

/// The lowerer's modal state.
pub struct ModalState {
    pub feed: u64,
    pub absolute: bool,
    pub positions: Seq<i64>,
}

/// Homing for the axis words of a `G28`, in order: x, y and z only.
pub open spec fn home_words(words: Seq<GcodeWord>, rate: u64, positions: Seq<i64>) -> (Seq<
    CommandModel,
>, Seq<i64>)
    decreases words.len(),
{
    if words.len() == 0 {
        (seq![], positions)
    } else {
        let (commands, pos) = home_words(words.drop_last(), rate, positions);
        match axis_of(words.last().letter) {
            Some(k) => if k < 3 {
                (commands.push(CommandModel::Home { axis: axis_name(k), rate_um_s: rate }), pos.update(k, 0))
            } else {
                (commands, pos)
            },
            None => (commands, pos),
        }
    }
}

proof fn lemma_no_homes_keep_positions(words: Seq<GcodeWord>, rate: u64, positions: Seq<i64>)
    ensures
        home_words(words, rate, positions).0.len() == 0 ==> home_words(words, rate, positions).1
            == positions,
        home_words(words, rate, positions).0.len() <= words.len(),
    decreases words.len(),
{
    if words.len() > 0 {
        lemma_no_homes_keep_positions(words.drop_last(), rate, positions);
    }
}

/// The feed rate after the `F` words of a move: the last one wins.
pub open spec fn feed_after(words: Seq<GcodeWord>, feed: u64) -> u64
    decreases words.len(),
{
    if words.len() == 0 {
        feed
    } else if words.last().letter == 'F' {
        words.last().feed_um_s
    } else {
        feed_after(words.drop_last(), feed)
    }
}

/// The moves for the axis words of a `G0`/`G1`, in order, each relative to
/// the position the previous ones left.
pub open spec fn move_words(words: Seq<GcodeWord>, absolute: bool, rate: u64, positions: Seq<i64>) -> (Seq<
    CommandModel,
>, Seq<i64>)
    decreases words.len(),
{
    if words.len() == 0 {
        (seq![], positions)
    } else {
        let (commands, pos) = move_words(words.drop_last(), absolute, rate, positions);
        let w = words.last();
        match axis_of(w.letter) {
            Some(k) => {
                let current = pos[k];
                let delta = if absolute {
                    w.thousandths.wrapping_sub(current)
                } else {
                    w.thousandths
                };
                let next = if absolute {
                    w.thousandths
                } else {
                    current.wrapping_add(delta)
                };
                (
                    commands.push(
                        CommandModel::Move { axis: axis_name(k), distance_um: delta, rate_um_s: rate },
                    ),
                    pos.update(k, next),
                )
            },
            None => (commands, pos),
        }
    }
}

/// The first word with letter `S`, if any.
pub open spec fn first_s(words: Seq<GcodeWord>) -> Option<GcodeWord>
    decreases words.len(),
{
    if words.len() == 0 {
        None
    } else if words[0].letter == 'S' {
        Some(words[0])
    } else {
        first_s(words.drop_first())
    }
}

/// A heater target command for the first `S` word, if any.
pub open spec fn heater_target(heater: Seq<char>, words: Seq<GcodeWord>) -> Seq<CommandModel> {
    match first_s(words) {
        Some(w) => seq![CommandModel::SetHeaterTarget { heater, target_milli_c: w.thousandths }],
        None => seq![],
    }
}

/// What one line's words do: the commands they lower to and the modal state
/// they leave.
pub open spec fn lower_line(
    hotend: Seq<char>,
    bed: Seq<char>,
    state: ModalState,
    words: Seq<GcodeWord>,
) -> (Seq<CommandModel>, ModalState) {
    if words.len() == 0 {
        (seq![], state)
    } else {
        let head = words[0];
        let params = words.drop_first();
        if head.letter == 'G' && head.code == 90 {
            (seq![], ModalState { absolute: true, ..state })
        } else if head.letter == 'G' && head.code == 91 {
            (seq![], ModalState { absolute: false, ..state })
        } else if head.letter == 'G' && head.code == 28 {
            let (homes, pos) = home_words(params, state.feed, state.positions);
            if homes.len() > 0 {
                (homes, ModalState { positions: pos, ..state })
            } else {
                (
                    seq![
                        CommandModel::Home { axis: seq!['x'], rate_um_s: state.feed },
                        CommandModel::Home { axis: seq!['y'], rate_um_s: state.feed },
                        CommandModel::Home { axis: seq!['z'], rate_um_s: state.feed },
                    ],
                    ModalState {
                        positions: state.positions.update(0, 0).update(1, 0).update(2, 0),
                        ..state
                    },
                )
            }
        } else if head.letter == 'G' && (head.code == 0 || head.code == 1) {
            let feed = feed_after(params, state.feed);
            let (moves, pos) = move_words(params, state.absolute, feed, state.positions);
            (moves, ModalState { feed, positions: pos, ..state })
        } else if head.letter == 'M' && (head.code == 104 || head.code == 109) {
            (heater_target(hotend, words), state)
        } else if head.letter == 'M' && (head.code == 140 || head.code == 190) {
            (heater_target(bed, words), state)
        } else if head.letter == 'M' && head.code == 105 {
            (seq![CommandModel::Heartbeat], state)
        } else {
            (seq![], state)
        }
    }
}

/// The views of a command list.
pub open spec fn command_views(commands: Seq<Command>) -> Seq<CommandModel> {
    commands.map_values(|c: Command| command_model(c))
}

fn axis_index(letter: char) -> (axis: Option<usize>)
    ensures
        match axis_of(letter) {
            Some(k) => axis == Some(k as usize),
            None => axis is None,
        },
{
    if letter == 'X' || letter == 'x' {
        Some(0)
    } else if letter == 'Y' || letter == 'y' {
        Some(1)
    } else if letter == 'Z' || letter == 'z' {
        Some(2)
    } else if letter == 'E' || letter == 'e' {
        Some(3)
    } else {
        None
    }
}

fn axis_string(axis: usize) -> (name: String)
    requires
        axis < 4,
    ensures
        name@ == axis_name(axis as int),
{
    let mut name = String::new();
    let c = if axis == 0 {
        'x'
    } else if axis == 1 {
        'y'
    } else if axis == 2 {
        'z'
    } else {
        'e'
    };
    crate::text::push_char(&mut name, c);
    assert(name@ =~= axis_name(axis as int));
    name
}

fn push_command(commands: &mut Vec<Command>, command: Command)
    ensures
        command_views(final(commands)@) == command_views(old(commands)@).push(command_model(command)),
{
    commands.push(command);
    assert(command_views(commands@) =~= command_views(old(commands)@).push(command_model(command)));
}

impl GcodeLowerer {
    /// The modal state.
    pub closed spec fn modal(&self) -> ModalState {
        ModalState {
            feed: self.current_feed_rate_um_s,
            absolute: self.absolute_positioning,
            positions: self.positions@,
        }
    }

    /// The configuration.
    pub closed spec fn configuration(&self) -> LowererConfig {
        self.config
    }

    /// A lowerer at the configured feed rate, absolute positioning, every
    /// axis at zero.
    pub fn new(config: LowererConfig) -> (lowerer: Self)
        ensures
            lowerer.modal().feed == config.default_feed_rate_um_s,
            lowerer.modal().absolute,
            lowerer.modal().positions == seq![0i64, 0i64, 0i64, 0i64],
            lowerer.configuration() == config,
    {
        let feed = config.default_feed_rate_um_s;
        let lowerer = GcodeLowerer {
            config,
            current_feed_rate_um_s: feed,
            absolute_positioning: true,
            positions: [0, 0, 0, 0],
        };
        assert(lowerer.positions@ =~= seq![0i64, 0i64, 0i64, 0i64]);
        lowerer
    }

    /// Lowers one line's words, appending its commands.
    pub fn lower_words(&mut self, words: &[GcodeWord], commands: &mut Vec<Command>)
        ensures
            ({
                let (emitted, after) = lower_line(
                    old(self).configuration().hotend_name@,
                    old(self).configuration().bed_name@,
                    old(self).modal(),
                    words@,
                );
                &&& command_views(final(commands)@) == command_views(old(commands)@) + emitted
                &&& final(self).modal() == after
                &&& final(self).configuration() == old(self).configuration()
            }),
    {
        let ghost start = command_views(commands@);
        if words.len() == 0 {
            assert(command_views(commands@) =~= start + Seq::<CommandModel>::empty());
            return;
        }
        let head = words[0];
        let ghost params = words@.drop_first();
        if head.letter == 'G' && head.code == 90 {
            self.absolute_positioning = true;
            assert(command_views(commands@) =~= start + Seq::<CommandModel>::empty());
        } else if head.letter == 'G' && head.code == 91 {
            self.absolute_positioning = false;
            assert(command_views(commands@) =~= start + Seq::<CommandModel>::empty());
        } else if head.letter == 'G' && head.code == 28 {
            self.home(words, commands);
        } else if head.letter == 'G' && (head.code == 0 || head.code == 1) {
            self.linear_move(words, commands);
        } else if head.letter == 'M' && (head.code == 104 || head.code == 109) {
            let heater = self.config.hotend_name.clone();
            push_heater_target(heater, words, commands);
        } else if head.letter == 'M' && (head.code == 140 || head.code == 190) {
            let heater = self.config.bed_name.clone();
            push_heater_target(heater, words, commands);
        } else if head.letter == 'M' && head.code == 105 {
            push_command(commands, Command::Heartbeat);
        } else {
            assert(command_views(commands@) =~= start + Seq::<CommandModel>::empty());
        }
    }

    fn home(&mut self, words: &[GcodeWord], commands: &mut Vec<Command>)
        requires
            words@.len() > 0,
        ensures
            ({
                let state = old(self).modal();
                let (homes, pos) = home_words(words@.drop_first(), state.feed, state.positions);
                if homes.len() > 0 {
                    &&& command_views(final(commands)@) == command_views(old(commands)@) + homes
                    &&& final(self).modal() == ModalState { positions: pos, ..state }
                } else {
                    &&& command_views(final(commands)@) == command_views(old(commands)@) + seq![
                        CommandModel::Home { axis: seq!['x'], rate_um_s: state.feed },
                        CommandModel::Home { axis: seq!['y'], rate_um_s: state.feed },
                        CommandModel::Home { axis: seq!['z'], rate_um_s: state.feed },
                    ]
                    &&& final(self).modal() == ModalState {
                        positions: state.positions.update(0, 0).update(1, 0).update(2, 0),
                        ..state
                    }
                }
            }),
            final(self).configuration() == old(self).configuration(),
    {
        let ghost start = command_views(commands@);
        let ghost state = self.modal();
        let ghost params = words@.drop_first();
        let rate = self.current_feed_rate_um_s;
        let mut homed = false;
        let mut i: usize = 1;
        while i < words.len()
            invariant
                1 <= i <= words@.len(),
                params == words@.drop_first(),
                rate == state.feed,
                self.current_feed_rate_um_s == state.feed,
                self.absolute_positioning == state.absolute,
                self.config == old(self).config,
                ({
                    let (homes, pos) = home_words(params.subrange(0, i - 1), rate, state.positions);
                    &&& command_views(commands@) == start + homes
                    &&& self.positions@ == pos
                    &&& homed == (homes.len() > 0)
                }),
            decreases words@.len() - i,
        {
            proof {
                let next = params.subrange(0, i as int);
                assert(next.drop_last() =~= params.subrange(0, i - 1));
                assert(next.last() == words@[i as int]);
            }
            match axis_index(words[i].letter) {
                Some(k) => {
                    if k < 3 {
                        let name = axis_string(k);
                        push_command(commands, Command::Home { axis: name, rate_um_s: rate });
                        self.positions.set(k, 0);
                        homed = true;
                    }
                },
                None => {},
            }
            proof {
                let next = params.subrange(0, i as int);
                let (homes, pos) = home_words(next, rate, state.positions);
                assert(command_views(commands@) =~= start + homes);
                assert(self.positions@ =~= pos);
            }
            i = i + 1;
        }
        proof {
            assert(params.subrange(0, words@.len() - 1) =~= params);
        }
        if !homed {
            proof {
                lemma_no_homes_keep_positions(params, rate, state.positions);
            }
            push_command(commands, Command::Home { axis: axis_string(0), rate_um_s: rate });
            push_command(commands, Command::Home { axis: axis_string(1), rate_um_s: rate });
            push_command(commands, Command::Home { axis: axis_string(2), rate_um_s: rate });
            self.positions.set(0, 0);
            self.positions.set(1, 0);
            self.positions.set(2, 0);
            proof {
                assert(command_views(commands@) =~= start + seq![
                    CommandModel::Home { axis: seq!['x'], rate_um_s: state.feed },
                    CommandModel::Home { axis: seq!['y'], rate_um_s: state.feed },
                    CommandModel::Home { axis: seq!['z'], rate_um_s: state.feed },
                ]);
                assert(self.positions@ =~= state.positions.update(0, 0).update(1, 0).update(2, 0));
            }
        }
    }

    fn linear_move(&mut self, words: &[GcodeWord], commands: &mut Vec<Command>)
        requires
            words@.len() > 0,
        ensures
            ({
                let state = old(self).modal();
                let params = words@.drop_first();
                let feed = feed_after(params, state.feed);
                let (moves, pos) = move_words(params, state.absolute, feed, state.positions);
                &&& command_views(final(commands)@) == command_views(old(commands)@) + moves
                &&& final(self).modal() == ModalState { feed, positions: pos, ..state }
            }),
            final(self).configuration() == old(self).configuration(),
    {
        let ghost start = command_views(commands@);
        let ghost state = self.modal();
        let ghost params = words@.drop_first();
        let mut i: usize = 1;
        let mut feed = self.current_feed_rate_um_s;
        while i < words.len()
            invariant
                1 <= i <= words@.len(),
                params == words@.drop_first(),
                feed == feed_after(params.subrange(0, i - 1), state.feed),
            decreases words@.len() - i,
        {
            proof {
                let next = params.subrange(0, i as int);
                assert(next.drop_last() =~= params.subrange(0, i - 1));
                assert(next.last() == words@[i as int]);
            }
            if words[i].letter == 'F' {
                feed = words[i].feed_um_s;
            }
            i = i + 1;
        }
        proof {
            assert(params.subrange(0, words@.len() - 1) =~= params);
        }
        self.current_feed_rate_um_s = feed;
        let absolute = self.absolute_positioning;
        let mut j: usize = 1;
        while j < words.len()
            invariant
                1 <= j <= words@.len(),
                params == words@.drop_first(),
                feed == feed_after(params, state.feed),
                absolute == state.absolute,
                self.current_feed_rate_um_s == feed,
                self.absolute_positioning == state.absolute,
                self.config == old(self).config,
                self.positions@.len() == 4,
                ({
                    let (moves, pos) = move_words(params.subrange(0, j - 1), absolute, feed, state.positions);
                    &&& command_views(commands@) == start + moves
                    &&& self.positions@ == pos
                }),
            decreases words@.len() - j,
        {
            proof {
                let next = params.subrange(0, j as int);
                assert(next.drop_last() =~= params.subrange(0, j - 1));
                assert(next.last() == words@[j as int]);
            }
            let w = words[j];
            match axis_index(w.letter) {
                Some(k) => {
                    let current = self.positions[k];
                    let delta = if absolute {
                        w.thousandths.wrapping_sub(current)
                    } else {
                        w.thousandths
                    };
                    let next = if absolute {
                        w.thousandths
                    } else {
                        current.wrapping_add(delta)
                    };
                    let name = axis_string(k);
                    push_command(commands, Command::Move { axis: name, distance_um: delta, rate_um_s: feed });
                    self.positions.set(k, next);
                },
                None => {},
            }
            proof {
                let next = params.subrange(0, j as int);
                let (moves, pos) = move_words(next, absolute, feed, state.positions);
                assert(command_views(commands@) =~= start + moves);
                assert(self.positions@ =~= pos);
            }
            j = j + 1;
        }
        proof {
            assert(params.subrange(0, words@.len() - 1) =~= params);
        }
    }
}

fn push_heater_target(heater: String, words: &[GcodeWord], commands: &mut Vec<Command>)
    ensures
        command_views(final(commands)@) == command_views(old(commands)@) + heater_target(
            heater@,
            words@,
        ),
{
    let ghost start = command_views(commands@);
    let mut i: usize = 0;
    assert(words@.subrange(0, words@.len() as int) =~= words@);
    while i < words.len()
        invariant
            i <= words@.len(),
            first_s(words@) == first_s(words@.subrange(i as int, words@.len() as int)),
            command_views(commands@) == start,
            start == command_views(old(commands)@),
        decreases words@.len() - i,
    {
        proof {
            let rest = words@.subrange(i as int, words@.len() as int);
            assert(rest.drop_first() =~= words@.subrange(i + 1, words@.len() as int));
        }
        if words[i].letter == 'S' {
            proof {
                let rest = words@.subrange(i as int, words@.len() as int);
                assert(rest[0] == words@[i as int]);
                assert(first_s(rest) == Some(rest[0]));
            }
            push_command(
                commands,
                Command::SetHeaterTarget { heater, target_milli_c: words[i].thousandths },
            );
            assert(command_views(commands@) =~= start + heater_target(heater@, words@));
            return;
        }
        i = i + 1;
    }
    assert(command_views(commands@) =~= start + heater_target(heater@, words@));
}

/// The text of a G-code line without its comment: trimmed, cut at the first
/// `;` or, when there is none, at the first `(`, and trimmed again.
pub open spec fn cleaned_line(line: Seq<char>) -> Seq<char> {
    let t = trimmed(line);
    match split_at_first(t, seq![';']) {
        Some((before, _)) => trimmed(before),
        None => match split_at_first(t, seq!['(']) {
            Some((before, _)) => trimmed(before),
            None => t,
        },
    }
}

/// A G-code line without its comment.
pub fn clean_line(line: &str) -> (cleaned: String)
    ensures
        cleaned@ == cleaned_line(line@),
{
    let t = trim(line);
    let mut semicolon = String::new();
    crate::text::push_char(&mut semicolon, ';');
    let mut paren = String::new();
    crate::text::push_char(&mut paren, '(');
    assert(semicolon@ =~= seq![';']);
    assert(paren@ =~= seq!['(']);
    match split_once(t, semicolon.as_str()) {
        Some((before, _)) => trim(before).to_owned(),
        None => match split_once(t, paren.as_str()) {
            Some((before, _)) => trim(before).to_owned(),
            None => t.to_owned(),
        },
    }
}

// ---------------------------------------------------------------------------
// Laws
// ---------------------------------------------------------------------------

/// Where the moves on one axis carry it from `start`: each move's distance
/// added in turn, wrapping as positions do.
pub open spec fn reached(commands: Seq<CommandModel>, axis: Seq<char>, start: i64) -> i64
    decreases commands.len(),
{
    if commands.len() == 0 {
        start
    } else {
        let before = reached(commands.drop_last(), axis, start);
        match commands.last() {
            CommandModel::Move { axis: a, distance_um, .. } => if a == axis {
                before.wrapping_add(distance_um)
            } else {
                before
            },
            _ => before,
        }
    }
}

/// The last target the words give axis `k`, or `start` when none does.
pub open spec fn last_target(words: Seq<GcodeWord>, k: int, start: i64) -> i64
    decreases words.len(),
{
    if words.len() == 0 {
        start
    } else if axis_of(words.last().letter) == Some(k) {
        words.last().thousandths
    } else {
        last_target(words.drop_last(), k, start)
    }
}

/// The position axis `k` reaches from `start` when each of the words' values
/// for it is an offset, added in turn (wrapping).
pub open spec fn offset_target(words: Seq<GcodeWord>, k: int, start: i64) -> i64
    decreases words.len(),
{
    if words.len() == 0 {
        start
    } else if axis_of(words.last().letter) == Some(k) {
        offset_target(words.drop_last(), k, start).wrapping_add(words.last().thousandths)
    } else {
        offset_target(words.drop_last(), k, start)
    }
}

/// The moves of a `G0`/`G1` carry each axis exactly to where the line puts
/// it: from the axis's last commanded position, the distances of its moves
/// add up (wrapping) to its new position, and under absolute positioning
/// that new position is the last target the line gives the axis (the old
/// one when it gives none), while under relative positioning it is the old
/// one plus each of the line's offsets for the axis. So each absolute move
/// travels its target less the axis's position before it, and each
/// relative move its offset, on every axis alike.
pub proof fn moves_carry_each_axis_to_its_target(
    words: Seq<GcodeWord>,
    absolute: bool,
    rate: u64,
    positions: Seq<i64>,
    k: int,
)
    requires
        positions.len() == 4,
        0 <= k < 4,
    ensures
        move_words(words, absolute, rate, positions).1.len() == 4,
        reached(move_words(words, absolute, rate, positions).0, axis_name(k), positions[k]) == move_words(
            words,
            absolute,
            rate,
            positions,
        ).1[k],
        absolute ==> move_words(words, absolute, rate, positions).1[k] == last_target(words, k, positions[k]),
        !absolute ==> move_words(words, absolute, rate, positions).1[k] == offset_target(words, k, positions[k]),
    decreases words.len(),
{
    if words.len() > 0 {
        moves_carry_each_axis_to_its_target(words.drop_last(), absolute, rate, positions, k);
        let (commands, pos) = move_words(words.drop_last(), absolute, rate, positions);
        let w = words.last();
        match axis_of(w.letter) {
            Some(j) => {
                let after = move_words(words, absolute, rate, positions);
                assert(after.0.drop_last() =~= commands);
                if j != k {
                    assert(axis_name(j)[0] != axis_name(k)[0]);
                    assert(axis_name(j) != axis_name(k));
                }
            },
            None => {},
        }
    }
}

proof fn lemma_feed_is_the_last_f(words: Seq<GcodeWord>, feed: u64)
    ensures
        (forall|j: int| 0 <= j < words.len() ==> (#[trigger] words[j]).letter != 'F') ==> feed_after(words, feed)
            == feed,
        forall|j: int|
            0 <= j < words.len() && (#[trigger] words[j]).letter == 'F' && (forall|l: int|
                j < l < words.len() ==> words[l].letter != 'F') ==> feed_after(words, feed) == words[j].feed_um_s,
    decreases words.len(),
{
    if words.len() > 0 {
        let rest = words.drop_last();
        let n = words.len() - 1;
        lemma_feed_is_the_last_f(rest, feed);
        assert forall|j: int| 0 <= j < words.len() && (#[trigger] words[j]).letter == 'F' && (forall|l: int|
            j < l < words.len() ==> words[l].letter != 'F') implies feed_after(words, feed)
            == words[j].feed_um_s by {
            lemma_last_f_at(words, feed, j);
        }
        if forall|j: int| 0 <= j < words.len() ==> (#[trigger] words[j]).letter != 'F' {
            assert(words[n].letter != 'F');
            assert forall|j: int| 0 <= j < rest.len() implies (#[trigger] rest[j]).letter != 'F' by {
                assert(rest[j] == words[j]);
            }
        }
    }
}

proof fn lemma_last_f_at(words: Seq<GcodeWord>, feed: u64, j: int)
    requires
        0 <= j < words.len(),
        words[j].letter == 'F',
        forall|l: int| j < l < words.len() ==> (#[trigger] words[l]).letter != 'F',
    ensures
        feed_after(words, feed) == words[j].feed_um_s,
    decreases words.len(),
{
    let n = words.len() - 1;
    if j < n {
        let rest = words.drop_last();
        assert(words[n].letter != 'F');
        assert(rest[j] == words[j]);
        assert forall|l: int| j < l < rest.len() implies (#[trigger] rest[l]).letter != 'F' by {
            assert(rest[l] == words[l]);
        }
        lemma_last_f_at(rest, feed, j);
    }
}

proof fn lemma_moves_are_moves_at(words: Seq<GcodeWord>, absolute: bool, rate: u64, positions: Seq<i64>)
    ensures
        forall|i: int|
            0 <= i < move_words(words, absolute, rate, positions).0.len() ==> (#[trigger] move_words(
                words,
                absolute,
                rate,
                positions,
            ).0[i] matches CommandModel::Move { rate_um_s, .. } && rate_um_s == rate),
    decreases words.len(),
{
    if words.len() > 0 {
        lemma_moves_are_moves_at(words.drop_last(), absolute, rate, positions);
        let before = move_words(words.drop_last(), absolute, rate, positions).0;
        let after = move_words(words, absolute, rate, positions).0;
        assert forall|i: int| 0 <= i < before.len() implies after[i] == before[i] by {}
    }
}

/// The first `S` word's value, as a heater target, when the line has one.
proof fn lemma_first_s(words: Seq<GcodeWord>)
    ensures
        (forall|j: int| 0 <= j < words.len() ==> (#[trigger] words[j]).letter != 'S') ==> first_s(words) is None,
        forall|j: int|
            0 <= j < words.len() && (#[trigger] words[j]).letter == 'S' && (forall|l: int|
                0 <= l < j ==> words[l].letter != 'S') ==> first_s(words) == Some(words[j]),
    decreases words.len(),
{
    if words.len() > 0 {
        let rest = words.drop_first();
        lemma_first_s(rest);
        assert forall|j: int| 0 <= j < rest.len() implies rest[j] == words[j + 1] by {}
        if words[0].letter != 'S' {
            assert forall|j: int|
                0 <= j < words.len() && (#[trigger] words[j]).letter == 'S' && (forall|l: int|
                    0 <= l < j ==> words[l].letter != 'S') implies first_s(words) == Some(words[j]) by {
                assert(rest[j - 1] == words[j]);
                assert forall|l: int| 0 <= l < j - 1 implies rest[l].letter != 'S' by {
                    assert(rest[l] == words[l + 1]);
                }
            }
        }
    }
}

/// What a line does, told by its effect:
/// - `G90` switches to absolute and `G91` to relative positioning, and
///   neither emits a command; no other line changes the positioning mode;
/// - a `G0`/`G1` emits only moves, all at the line's feed rate — the last
///   `F` word's, or the previous rate when it has none, which it keeps —
///   and carries every axis to where the line puts it;
/// - `M104`/`M109` set the hotend, and `M140`/`M190` the bed, to the
///   line's first `S` value, and set nothing without one; neither moves.
pub proof fn lines_do_what_their_codes_say(
    hotend: Seq<char>,
    bed: Seq<char>,
    state: ModalState,
    words: Seq<GcodeWord>,
    k: int,
)
    requires
        state.positions.len() == 4,
        0 <= k < 4,
    ensures
        ({
            let (commands, next) = lower_line(hotend, bed, state, words);
            let head = words[0];
            let params = words.drop_first();
            let g = |c: u64| words.len() > 0 && head.letter == 'G' && head.code == c;
            let m = |c: u64| words.len() > 0 && head.letter == 'M' && head.code == c;
            &&& g(90) ==> next.absolute && commands.len() == 0
            &&& g(91) ==> !next.absolute && commands.len() == 0
            &&& !g(90) && !g(91) ==> next.absolute == state.absolute
            &&& (g(0) || g(1)) ==> {
                &&& (forall|j: int| 0 <= j < params.len() ==> (#[trigger] params[j]).letter != 'F') ==> next.feed
                    == state.feed
                &&& (forall|j: int|
                    0 <= j < params.len() && (#[trigger] params[j]).letter == 'F' && (forall|l: int|
                        j < l < params.len() ==> params[l].letter != 'F') ==> next.feed == params[j].feed_um_s)
                &&& forall|i: int|
                    0 <= i < commands.len() ==> (#[trigger] commands[i] matches CommandModel::Move { rate_um_s, .. }
                        && rate_um_s == next.feed)
                &&& reached(commands, axis_name(k), state.positions[k]) == next.positions[k]
                &&& state.absolute ==> next.positions[k] == last_target(params, k, state.positions[k])
                &&& !state.absolute ==> next.positions[k] == offset_target(params, k, state.positions[k])
            }
            &&& (m(104) || m(109) || m(140) || m(190)) ==> {
                let heater = if m(104) || m(109) {
                    hotend
                } else {
                    bed
                };
                &&& next == state
                &&& (forall|j: int| 0 <= j < words.len() ==> (#[trigger] words[j]).letter != 'S') ==> commands.len()
                    == 0
                &&& forall|j: int|
                    0 <= j < words.len() && (#[trigger] words[j]).letter == 'S' && (forall|l: int|
                        0 <= l < j ==> words[l].letter != 'S') ==> commands == seq![
                        CommandModel::SetHeaterTarget { heater, target_milli_c: words[j].thousandths },
                    ]
            }
        }),
{
    if words.len() > 0 {
        let head = words[0];
        let params = words.drop_first();
        if head.letter == 'G' && (head.code == 0 || head.code == 1) {
            let feed = feed_after(params, state.feed);
            lemma_feed_is_the_last_f(params, state.feed);
            lemma_moves_are_moves_at(params, state.absolute, feed, state.positions);
            moves_carry_each_axis_to_its_target(params, state.absolute, feed, state.positions, k);
        }
        lemma_first_s(words);
    }
}

} // verus!
