use std::collections::HashMap;
use vstd::prelude::*;

use crate::analyzer::analyzer::{flip_fen_turn, flipped_fields, AnalyzerController, EngineCommand, EngineOption};
use crate::engine::fen::fen_of;
use crate::engine::fen::holds_char;
use crate::engine::serializer::push_part;
use crate::server::server::{EvalKind, PvLineData, PvObject, Settings};
use crate::text::{
    chars_of, contains_seq, decimal, has_prefix, join_with, parse_i32, parse_i32_spec, parse_u32,
    parse_u32_spec, parse_u8, parse_u8_spec, parse_usize, parse_usize_spec, split_whitespace,
    str_contains, str_starts_with,
    string_from_chars, u64_to_string, views, ws_fields,
};

verus! {

broadcast use vstd::std_specs::hash::group_hash_axioms;

/// The search the analysis engine is sent: depth 40, at most 20 seconds.
pub open spec fn go_command() -> Seq<char> {
    "go depth 40 movetime 20000"@
}

/// What the loop around the engine is asked to do, in order.
#[derive(Clone, Debug)]
pub enum EngineAction {
    /// Send `stop` and read the engine's output up to its `bestmove` line.
    StopSearch,
    /// Wait until the engine is ready.
    EnsureReady,
    /// Set the engine's position from a FEN.
    SetPosition(String),
    /// Send a line to the engine; whether it was sent does not matter.
    Send(String),
    /// Send a search command; report with `search_sent` whether it was sent.
    Go(String),
    /// Set an engine option to a value.
    SetOption(String, String),
    /// Announce the session's current variations.
    EmitPv,
    /// Store the session's current variations as the last ones found, and
    /// announce them.
    RecordPv,
    /// Look for the opponent's threat in the given FEN, with an engine of its
    /// own.
    SpawnThreat(String),
    /// End the session.
    Quit,
}

/// An action as plain values.
pub enum ActionView {
    StopSearch,
    EnsureReady,
    SetPosition(Seq<char>),
    Send(Seq<char>),
    Go(Seq<char>),
    SetOption(Seq<char>, Seq<char>),
    EmitPv,
    RecordPv,
    SpawnThreat(Seq<char>),
    Quit,
}

impl View for EngineAction {
    type V = ActionView;

    open spec fn view(&self) -> ActionView {
        match self {
            EngineAction::StopSearch => ActionView::StopSearch,
            EngineAction::EnsureReady => ActionView::EnsureReady,
            EngineAction::SetPosition(f) => ActionView::SetPosition(f@),
            EngineAction::Send(t) => ActionView::Send(t@),
            EngineAction::Go(t) => ActionView::Go(t@),
            EngineAction::SetOption(n, v) => ActionView::SetOption(n@, v@),
            EngineAction::EmitPv => ActionView::EmitPv,
            EngineAction::RecordPv => ActionView::RecordPv,
            EngineAction::SpawnThreat(f) => ActionView::SpawnThreat(f@),
            EngineAction::Quit => ActionView::Quit,
        }
    }
}

/// The actions as plain values.
pub open spec fn actions_view(acts: Seq<EngineAction>) -> Seq<ActionView> {
    acts.map_values(|a: EngineAction| a@)
}

/// A running search is stopped first.
pub open spec fn stop_first(searching: bool) -> Seq<ActionView> {
    if searching {
        seq![ActionView::StopSearch]
    } else {
        Seq::empty()
    }
}

/// The state of an analysis session: whether the engine is searching, the
/// position it searches, the variations found for it and the sign that turns
/// the engine's evaluations into White's view.
pub struct AnalysisSession {
    pub is_searching: bool,
    pub current_fen: String,
    pub current_pv: PvObject,
    pub color_multiplier: i32,
}

/// What an engine `info` line holds: the variation's rank, the depth, the
/// moves, and the kind and value of the score.
pub open spec fn info_start() -> (u8, u32, Seq<char>, EvalKind, i32) {
    (1u8, 0u32, Seq::empty(), EvalKind::Centipawn, 0i32)
}

/// Reads the tokens of an `info` line from token `i` on: `multipv`, `depth`
/// and `score` take the tokens after them (a number that does not read gives
/// rank 1, depth 0 or score 0; a score kind other than `mate` counts
/// centipawns), and `pv` takes the rest of the line as the moves, joined by
/// spaces. Other tokens are passed over.
pub open spec fn info_scan(t: Seq<Seq<char>>, i: int, acc: (u8, u32, Seq<char>, EvalKind, i32)) -> (
    u8,
    u32,
    Seq<char>,
    EvalKind,
    i32,
)
    decreases t.len() - i,
{
    if i < 0 || i >= t.len() {
        acc
    } else if t[i] == "multipv"@ && i + 1 < t.len() {
        let r = match parse_u8_spec(t[i + 1]) {
            Some(v) => v,
            None => 1u8,
        };
        info_scan(t, i + 2, (r, acc.1, acc.2, acc.3, acc.4))
    } else if t[i] == "depth"@ && i + 1 < t.len() {
        let d = match parse_u32_spec(t[i + 1]) {
            Some(v) => v,
            None => 0u32,
        };
        info_scan(t, i + 2, (acc.0, d, acc.2, acc.3, acc.4))
    } else if t[i] == "score"@ && i + 2 < t.len() {
        let k = if t[i + 1] == "mate"@ {
            EvalKind::Mate
        } else {
            EvalKind::Centipawn
        };
        let v = match parse_i32_spec(t[i + 2]) {
            Some(v) => v,
            None => 0i32,
        };
        info_scan(t, i + 3, (acc.0, acc.1, acc.2, k, v))
    } else if t[i] == "pv"@ {
        (acc.0, acc.1, join_with(t.subrange(i + 1, t.len() as int), ' '), acc.3, acc.4)
    } else {
        info_scan(t, i + 1, acc)
    }
}

/// What an `info` line holds, read from its white-space separated tokens.
pub open spec fn info_of(line: Seq<char>) -> (u8, u32, Seq<char>, EvalKind, i32) {
    info_scan(ws_fields(line), 0, info_start())
}

/// A line that reports a variation: it holds ` multipv ` and ` pv `.
pub open spec fn is_pv_line(line: Seq<char>) -> bool {
    contains_seq(line, " multipv "@) && contains_seq(line, " pv "@)
}

/// A line that the session takes as news: a variation at least as deep as
/// the variations it holds.
pub open spec fn updates_pv(s: AnalysisSession, line: Seq<char>) -> bool {
    &&& line.len() > 0
    &&& !has_prefix(line, "bestmove"@)
    &&& is_pv_line(line)
    &&& info_of(line).1 >= s.current_pv.depth
}

/// The evaluation of such a line, in White's view, fits in an `i32`.
pub open spec fn pv_product_fits(s: AnalysisSession, line: Seq<char>) -> bool {
    updates_pv(s, line) ==> i32::MIN <= info_of(line).4 * s.color_multiplier <= i32::MAX
}

/// Between two sessions the position stays: the same position and
/// variations' position, the same sign, and variations at least as deep.
pub open spec fn keeps_position(s: AnalysisSession, s2: AnalysisSession) -> bool {
    &&& s2.current_fen == s.current_fen
    &&& s2.current_pv.fen == s.current_pv.fen
    &&& s2.color_multiplier == s.color_multiplier
    &&& s2.current_pv.depth >= s.current_pv.depth
}

/// Over a run of engine lines, each keeping the position, every session
/// announces the position of the first, and the depth never falls: after a
/// `SetFen` or `SetAndGo` of `f` (which starts the variations over for `f` at
/// depth 0), every announcement until the next has `f` and a depth that does
/// not fall.
pub proof fn lemma_position_kept(ss: Seq<AnalysisSession>)
    requires
        forall|i: int| 0 <= i < ss.len() - 1 ==> keeps_position(#[trigger] ss[i], ss[i + 1]),
    ensures
        forall|i: int, j: int|
            0 <= i <= j < ss.len() ==> (#[trigger] ss[j]).current_pv.fen == (#[trigger] ss[i]).current_pv.fen
                && ss[j].current_fen == ss[i].current_fen && ss[i].current_pv.depth <= ss[j].current_pv.depth,
    decreases ss.len(),
{
    if ss.len() > 1 {
        let init = ss.drop_last();
        assert forall|i: int| 0 <= i < init.len() - 1 implies keeps_position(#[trigger] init[i], init[i + 1]) by {
            assert(init[i] == ss[i] && init[i + 1] == ss[i + 1]);
        }
        lemma_position_kept(init);
        assert forall|i: int, j: int|
            0 <= i <= j < ss.len() implies (#[trigger] ss[j]).current_pv.fen == (#[trigger] ss[i]).current_pv.fen
                && ss[j].current_fen == ss[i].current_fen && ss[i].current_pv.depth <= ss[j].current_pv.depth by {
            if j < ss.len() - 1 {
                assert(init[i] == ss[i] && init[j] == ss[j]);
            } else if i < j {
                assert(init[i] == ss[i] && init[j - 1] == ss[j - 1]);
                assert(keeps_position(ss[j - 1], ss[j]));
            }
        }
    }
}

/// The text of tokens `from..` of `t`, joined by spaces.
pub(crate) fn join_rest(t: &Vec<Vec<char>>, from: usize) -> (s: String)
    requires
        from <= t.len(),
    ensures
        s@ == join_with(views(t@).subrange(from as int, t@.len() as int), ' '),
{
    let mut out = String::new();
    let ghost mut parts: Seq<Seq<char>> = Seq::empty();
    let mut k: usize = from;
    while k < t.len()
        invariant
            from <= k <= t.len(),
            parts == views(t@).subrange(from as int, k as int),
            out@ == join_with(parts, ' '),
        decreases t.len() - k,
    {
        let word = string_from_chars(&t[k]);
        push_part(&mut out, &word, ' ', k == from, Ghost(parts));
        proof {
            assert(views(t@)[k as int] == t@[k as int]@);
            assert(views(t@).subrange(from as int, k + 1) == parts.push(word@));
            parts = parts.push(word@);
        }
        k += 1;
    }
    out
}

/// Reads an `info` line's tokens as `info_scan` does.
fn read_info(line: &str) -> (r: (u8, u32, String, EvalKind, i32))
    ensures
        (r.0, r.1, r.2@, r.3, r.4) == info_of(line@),
{
    let parts = split_whitespace(&chars_of(line));
    let ghost t = views(parts@);
    let mut multipv_idx: u8 = 1;
    let mut depth: u32 = 0;
    let mut score_kind = EvalKind::Centipawn;
    let mut score_value: i32 = 0;
    let mut i: usize = 0;
    while i < parts.len()
        invariant
            t == views(parts@),
            t == ws_fields(line@),
            i <= parts.len(),
            info_scan(t, i as int, (multipv_idx, depth, Seq::empty(), score_kind, score_value))
                == info_of(line@),
        decreases parts.len() - i,
    {
        assert(t[i as int] == parts@[i as int]@);
        let tok = &parts[i];
        if chars_eq_word(tok, "multipv") && i + 1 < parts.len() {
            assert(t[i + 1] == parts@[i + 1]@);
            multipv_idx = match parse_u8(&parts[i + 1]) {
                Some(v) => v,
                None => 1,
            };
            i += 2;
        } else if chars_eq_word(tok, "depth") && i + 1 < parts.len() {
            assert(t[i + 1] == parts@[i + 1]@);
            depth = match parse_u32(&parts[i + 1]) {
                Some(v) => v,
                None => 0,
            };
            i += 2;
        } else if chars_eq_word(tok, "score") && parts.len() - i > 2 {
            assert(t[i + 1] == parts@[i + 1]@);
            assert(t[i + 2] == parts@[i + 2]@);
            score_kind = if chars_eq_word(&parts[i + 1], "mate") {
                EvalKind::Mate
            } else {
                EvalKind::Centipawn
            };
            score_value = match parse_i32(&parts[i + 2]) {
                Some(v) => v,
                None => 0,
            };
            i += 3;
        } else if chars_eq_word(tok, "pv") {
            let moves = join_rest(&parts, i + 1);
            return (multipv_idx, depth, moves, score_kind, score_value);
        } else {
            i += 1;
        }
    }
    (multipv_idx, depth, String::new(), score_kind, score_value)
}

/// Whether a token is the given word.
fn chars_eq_word(v: &Vec<char>, w: &str) -> (eq: bool)
    ensures
        eq == (v@ == w@),
{
    crate::text::chars_eq(v, w)
}

impl AnalysisSession {
    /// A session that is not searching, with no position and no variations,
    /// evaluations taken as they come.
    pub fn new() -> (s: AnalysisSession)
        ensures
            !s.is_searching,
            s.current_fen@.len() == 0,
            s.current_pv.fen@.len() == 0,
            s.current_pv.depth == 0,
            s.current_pv.lines@.len() == 0,
            s.color_multiplier == 1,
    {
        AnalysisSession {
            is_searching: false,
            current_fen: String::new(),
            current_pv: PvObject::default(),
            color_multiplier: 1,
        }
    }

    /// Forgets the variations found and starts over for `fen`.
    fn reset_pv(&mut self, fen: String)
        ensures
            final(self).current_fen@ == fen@,
            final(self).current_pv.fen@ == fen@,
            final(self).current_pv.depth == 0,
            final(self).current_pv.lines@ == Map::<u8, PvLineData>::empty(),
            final(self).is_searching == old(self).is_searching,
            final(self).color_multiplier == old(self).color_multiplier,
    {
        let fen_copy = fen.clone();
        self.current_fen = fen;
        self.current_pv = PvObject { fen: fen_copy, depth: 0, lines: HashMap::new() };
    }

    /// What a command asks of the engine, and the session after it:
    /// - `SetFen`: stop a running search, wait for the engine, set the
    ///   position, start the variations over for it and announce them;
    /// - `SetAndGo`: as `SetFen`, but the position is sent as the given
    ///   command line, the sign is stored, the engine is waited for again
    ///   and the search is started;
    /// - `GoInfinite`: wait for the engine and start the search;
    /// - `Stop`: stop a running search;
    /// - `Quit`: end;
    /// - `GetThreat`: look for the threat in the FEN with the other side to
    ///   move;
    /// - `SetHashSize`, `SetMultiPv`, `SetThreads`: wait for the engine and set
    ///   `Hash`, `MultiPV` or `Threads` to the number.
    pub fn handle_command(&mut self, cmd: EngineCommand) -> (acts: Vec<EngineAction>)
        ensures
            match cmd {
                EngineCommand::SetFen(fen) => {
                    &&& actions_view(acts@) == stop_first(old(self).is_searching) + seq![
                        ActionView::EnsureReady,
                        ActionView::SetPosition(fen@),
                        ActionView::EmitPv,
                    ]
                    &&& !final(self).is_searching
                    &&& final(self).current_fen@ == fen@
                    &&& final(self).current_pv.fen@ == fen@
                    &&& final(self).current_pv.depth == 0
                    &&& final(self).current_pv.lines@ == Map::<u8, PvLineData>::empty()
                    &&& final(self).color_multiplier == old(self).color_multiplier
                },
                EngineCommand::SetAndGo(fen, mult) => {
                    &&& actions_view(acts@) == stop_first(old(self).is_searching) + seq![
                        ActionView::EnsureReady,
                        ActionView::Send(fen@),
                        ActionView::EnsureReady,
                        ActionView::EmitPv,
                        ActionView::Go(go_command()),
                    ]
                    &&& !final(self).is_searching
                    &&& final(self).current_fen@ == fen@
                    &&& final(self).current_pv.fen@ == fen@
                    &&& final(self).current_pv.depth == 0
                    &&& final(self).current_pv.lines@ == Map::<u8, PvLineData>::empty()
                    &&& final(self).color_multiplier == mult
                },
                EngineCommand::GoInfinite => {
                    &&& actions_view(acts@) == seq![ActionView::EnsureReady, ActionView::Go(go_command())]
                    &&& *final(self) == *old(self)
                },
                EngineCommand::Stop => {
                    &&& actions_view(acts@) == stop_first(old(self).is_searching)
                    &&& *final(self) == (AnalysisSession { is_searching: false, ..*old(self) })
                },
                EngineCommand::Quit => {
                    &&& actions_view(acts@) == seq![ActionView::Quit]
                    &&& *final(self) == *old(self)
                },
                EngineCommand::GetThreat(fen, _mult) => {
                    &&& actions_view(acts@) == seq![
                        ActionView::SpawnThreat(join_with(flipped_fields(ws_fields(fen@)), ' ')),
                    ]
                    &&& *final(self) == *old(self)
                },
                EngineCommand::SetHashSize(n) => {
                    &&& actions_view(acts@) == seq![
                        ActionView::EnsureReady,
                        ActionView::SetOption("Hash"@, decimal(n as nat)),
                    ]
                    &&& *final(self) == *old(self)
                },
                EngineCommand::SetMultiPv(n) => {
                    &&& actions_view(acts@) == seq![
                        ActionView::EnsureReady,
                        ActionView::SetOption("MultiPV"@, decimal(n as nat)),
                    ]
                    &&& *final(self) == *old(self)
                },
                EngineCommand::SetThreads(n) => {
                    &&& actions_view(acts@) == seq![
                        ActionView::EnsureReady,
                        ActionView::SetOption("Threads"@, decimal(n as nat)),
                    ]
                    &&& *final(self) == *old(self)
                },
            },
    {
        let mut acts: Vec<EngineAction> = Vec::new();
        match cmd {
            EngineCommand::SetFen(fen) => {
                if self.is_searching {
                    self.is_searching = false;
                    acts.push(EngineAction::StopSearch);
                }
                acts.push(EngineAction::EnsureReady);
                acts.push(EngineAction::SetPosition(fen.clone()));
                self.reset_pv(fen);
                acts.push(EngineAction::EmitPv);
            },
            EngineCommand::SetAndGo(fen, mult) => {
                if self.is_searching {
                    self.is_searching = false;
                    acts.push(EngineAction::StopSearch);
                }
                acts.push(EngineAction::EnsureReady);
                acts.push(EngineAction::Send(fen.clone()));
                self.reset_pv(fen);
                self.color_multiplier = mult;
                acts.push(EngineAction::EnsureReady);
                acts.push(EngineAction::EmitPv);
                acts.push(EngineAction::Go(String::from_str("go depth 40 movetime 20000")));
            },
            EngineCommand::GoInfinite => {
                acts.push(EngineAction::EnsureReady);
                acts.push(EngineAction::Go(String::from_str("go depth 40 movetime 20000")));
            },
            EngineCommand::Stop => {
                if self.is_searching {
                    self.is_searching = false;
                    acts.push(EngineAction::StopSearch);
                }
            },
            EngineCommand::Quit => {
                acts.push(EngineAction::Quit);
            },
            EngineCommand::GetThreat(fen, _mult) => {
                acts.push(EngineAction::SpawnThreat(flip_fen_turn(fen.as_str())));
            },
            EngineCommand::SetHashSize(n) => {
                acts.push(EngineAction::EnsureReady);
                acts.push(EngineAction::SetOption(String::from_str("Hash"), u64_to_string(n as u64)));
            },
            EngineCommand::SetMultiPv(n) => {
                acts.push(EngineAction::EnsureReady);
                acts.push(EngineAction::SetOption(String::from_str("MultiPV"), u64_to_string(n as u64)));
            },
            EngineCommand::SetThreads(n) => {
                acts.push(EngineAction::EnsureReady);
                acts.push(EngineAction::SetOption(String::from_str("Threads"), u64_to_string(n as u64)));
            },
        }
        proof {
            assert(actions_view(acts@) =~= actions_view(acts@));
        }
        acts
    }

    /// The engine took (`sent`) or refused a search command: the session is
    /// searching from then on if it took it.
    pub fn search_sent(&mut self, sent: bool)
        ensures
            *final(self) == (AnalysisSession { is_searching: old(self).is_searching || sent, ..*old(self) }),
    {
        if sent {
            self.is_searching = true;
        }
    }

    /// Whether the evaluation a line would store, turned to White's view,
    /// fits in an `i32` (`pv_product_fits`).
    pub fn line_fits(&self, line: &str) -> (ok: bool)
        ensures
            ok == pv_product_fits(*self, line@),
    {
        if line.unicode_len() == 0 || str_starts_with(line, "bestmove") || !str_contains(line, " multipv ")
            || !str_contains(line, " pv ") {
            return true;
        }
        let (_, depth, _, _, score_value) = read_info(line);
        if depth < self.current_pv.depth {
            return true;
        }
        let a: i64 = score_value as i64;
        let b: i64 = self.color_multiplier as i64;
        assert(-0x8000_0000 * 0x8000_0000 <= a * b <= 0x8000_0000 * 0x8000_0000) by (nonlinear_arith)
            requires
                -0x8000_0000 <= a <= 0x7FFF_FFFF,
                -0x8000_0000 <= b <= 0x7FFF_FFFF,
        ;
        let product: i64 = a * b;
        -0x8000_0000 <= product && product <= 0x7FFF_FFFF
    }

    /// What a line of the searching engine's output asks, and the session
    /// after it: an empty line asks nothing; a `bestmove` line asks to send
    /// the search command again; a variation (`is_pv_line`) at least as deep
    /// as those held sets the depth, stores the variation under its rank with
    /// its evaluation turned to White's view, and asks to record and announce
    /// the variations. Any other line asks nothing.
    pub fn handle_engine_line(&mut self, line: &str) -> (acts: Vec<EngineAction>)
        requires
            pv_product_fits(*old(self), line@),
        ensures
            keeps_position(*old(self), *final(self)),
            if line@.len() == 0 {
                acts@.len() == 0 && *final(self) == *old(self)
            } else if has_prefix(line@, "bestmove"@) {
                actions_view(acts@) == seq![ActionView::Send(go_command())] && *final(self) == *old(self)
            } else if updates_pv(*old(self), line@) {
                let info = info_of(line@);
                let entry = final(self).current_pv.lines@[info.0];
                &&& actions_view(acts@) == seq![ActionView::RecordPv]
                &&& final(self).current_pv.depth == info.1
                &&& final(self).current_pv.lines@ == old(self).current_pv.lines@.insert(info.0, entry)
                &&& entry.moves@ == info.2
                &&& entry.eval_kind == info.3
                &&& entry.eval_value == info.4 * old(self).color_multiplier
                &&& final(self).current_pv.fen == old(self).current_pv.fen
                &&& final(self).current_fen == old(self).current_fen
                &&& final(self).is_searching == old(self).is_searching
                &&& final(self).color_multiplier == old(self).color_multiplier
            } else {
                acts@.len() == 0 && *final(self) == *old(self)
            },
    {
        let mut acts: Vec<EngineAction> = Vec::new();
        if line.unicode_len() == 0 {
            return acts;
        }
        if str_starts_with(line, "bestmove") {
            acts.push(EngineAction::Send(String::from_str("go depth 40 movetime 20000")));
            proof {
                assert(actions_view(acts@) =~= seq![ActionView::Send(go_command())]);
            }
            return acts;
        }
        if str_contains(line, " multipv ") && str_contains(line, " pv ") {
            let (multipv_idx, depth, moves, score_kind, score_value) = read_info(line);
            if depth >= self.current_pv.depth {
                self.current_pv.depth = depth;
                let line_data = PvLineData {
                    moves,
                    eval_kind: score_kind,
                    eval_value: score_value * self.color_multiplier,
                };
                self.current_pv.lines.insert(multipv_idx, line_data);
                acts.push(EngineAction::RecordPv);
                proof {
                    assert(actions_view(acts@) =~= seq![ActionView::RecordPv]);
                }
            }
        }
        acts
    }
}

/// The engine options set when a session starts, each with the stored
/// setting or, where none is stored, the default that is then stored:
/// `MultiPV` (1), `Threads` (1) and `HashSize` (128).
pub fn startup_options(settings: &mut Settings) -> (opts: Vec<(String, String)>)
    requires
        old(settings).wf(),
    ensures
        final(settings).wf(),
        opts@.len() == 3,
        opts@[0].0@ == "MultiPV"@,
        opts@[1].0@ == "Threads"@,
        opts@[2].0@ == "HashSize"@,
        opts@[0].1@ == match old(settings).value_of("MultiPV"@) {
            Some(v) => v,
            None => "1"@,
        },
        opts@[1].1@ == match old(settings).value_of("Threads"@) {
            Some(v) => v,
            None => "1"@,
        },
        opts@[2].1@ == match old(settings).value_of("HashSize"@) {
            Some(v) => v,
            None => "128"@,
        },
        final(settings).value_of("MultiPV"@) == Some(opts@[0].1@),
        final(settings).value_of("Threads"@) == Some(opts@[1].1@),
        final(settings).value_of("HashSize"@) == Some(opts@[2].1@),
{
    let mut opts: Vec<(String, String)> = Vec::new();
    let ghost s0 = *settings;
    let pv = settings.entry_or_insert("MultiPV", "1");
    let ghost s1 = *settings;
    let th = settings.entry_or_insert("Threads", "1");
    let ghost s2 = *settings;
    let hs = settings.entry_or_insert("HashSize", "128");
    proof {
        reveal_strlit("MultiPV");
        reveal_strlit("Threads");
        reveal_strlit("HashSize");
        assert("MultiPV"@[0] != "Threads"@[0]);
        assert("MultiPV"@.len() != "HashSize"@.len());
        assert("Threads"@.len() != "HashSize"@.len());
        assert(s1.value_of("MultiPV"@) == Some(pv@));
        assert(s1.value_of("Threads"@) == s0.value_of("Threads"@));
        assert(s1.value_of("HashSize"@) == s0.value_of("HashSize"@));
        assert(s2.value_of("MultiPV"@) == Some(pv@));
        assert(s2.value_of("Threads"@) == Some(th@));
        assert(s2.value_of("HashSize"@) == s0.value_of("HashSize"@));
    }
    opts.push((String::from_str("MultiPV"), pv));
    opts.push((String::from_str("Threads"), th));
    opts.push((String::from_str("HashSize"), hs));
    opts
}

/// The settings key an engine option is stored under: `HashSize`,
/// `Threads` or `MultiPV`.
pub open spec fn option_key(option: EngineOption) -> Seq<char> {
    match option {
        EngineOption::Hash => "HashSize"@,
        EngineOption::Threads => "Threads"@,
        EngineOption::MultiPv => "MultiPV"@,
    }
}

/// What setting an engine option to `value` asks: the command that sets it
/// (`SetHashSize`, `SetThreads` or `SetMultiPv` with the number) and the
/// settings key to store `value` under once the command is sent; `None`
/// where `value` does not read as a `usize`.
pub fn option_request(option: EngineOption, value: &str) -> (r: Option<(EngineCommand, String)>)
    ensures
        match parse_usize_spec(value@) {
            None => r is None,
            Some(n) => r matches Some((cmd, key)) && key@ == option_key(option) && match option {
                EngineOption::Hash => cmd matches EngineCommand::SetHashSize(m) && m == n,
                EngineOption::Threads => cmd matches EngineCommand::SetThreads(m) && m == n,
                EngineOption::MultiPv => cmd matches EngineCommand::SetMultiPv(m) && m == n,
            },
        },
{
    let n = match parse_usize(&chars_of(value)) {
        Some(n) => n,
        None => {
            return None;
        },
    };
    match option {
        EngineOption::Hash => Some((EngineCommand::SetHashSize(n), String::from_str("HashSize"))),
        EngineOption::Threads => Some((EngineCommand::SetThreads(n), String::from_str("Threads"))),
        EngineOption::MultiPv => Some((EngineCommand::SetMultiPv(n), String::from_str("MultiPV"))),
    }
}

/// The request to look for the threat on the analysis board: its FEN, and
/// 1 when the FEN holds a `w` (White to move), else -1.
pub fn threat_command(controller: &AnalyzerController) -> (cmd: EngineCommand)
    ensures
        cmd matches EngineCommand::GetThreat(fen, mult) && fen@ == fen_of(controller.board) && mult == if fen_of(
            controller.board,
        ).contains('w') {
            1i32
        } else {
            -1i32
        },
{
    let fen = controller.board.to_string();
    let mult: i32 = if holds_char(&chars_of(fen.as_str()), 'w') {
        1
    } else {
        -1
    };
    EngineCommand::GetThreat(fen, mult)
}

} // verus!
