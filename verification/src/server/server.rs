use std::collections::HashMap;
use vstd::prelude::*;

use crate::engine::san_reader::strip_annotations;
use crate::text::{
    decimal, push_decimal, push_signed_decimal, signed_decimal, chars_of, parse_usize, parse_usize_spec, push_str, split_chars, split_on, split_whitespace,
    str_eq, string_from_chars, trim, trim_chars, views, ws_fields,
};

verus! {

broadcast use vstd::std_specs::hash::group_hash_axioms;

/// Whether an engine evaluation counts moves to mate or centipawns.
#[derive(Clone, Copy, Debug, PartialEq, Eq, Structural)]
pub enum EvalKind {
    Mate,
    Centipawn,
}

/// One principal variation: its moves and its evaluation.
#[derive(Clone, Debug)]
pub struct PvLineData {
    pub moves: String,
    pub eval_kind: EvalKind,
    pub eval_value: i32,
}

/// The engine's variations for a position, by their rank, and the depth
/// reached.
#[derive(Clone, Debug)]
pub struct PvObject {
    pub fen: String,
    pub depth: u32,
    pub lines: HashMap<u8, PvLineData>,
}

/// A variation's worth for the side the evaluation is for: centipawns as
/// they are; a mate in `n` as 1 000 000 less `n`, being mated in `n` as
/// -1 000 000 less `n`, so that mates outrank any centipawn score.
pub open spec fn line_score(l: PvLineData) -> int {
    match l.eval_kind {
        EvalKind::Mate => if l.eval_value >= 0 {
            1_000_000 - l.eval_value
        } else {
            -1_000_000 - l.eval_value
        },
        EvalKind::Centipawn => l.eval_value as int,
    }
}

/// The best of a list of variations: the highest score, the last of equal
/// ones.
pub open spec fn best_of(vs: Seq<PvLineData>) -> Option<PvLineData>
    decreases vs.len(),
{
    if vs.len() == 0 {
        None
    } else {
        match best_of(vs.drop_last()) {
            Some(b) => if line_score(vs.last()) >= line_score(b) {
                Some(vs.last())
            } else {
                Some(b)
            },
            None => Some(vs.last()),
        }
    }
}

/// The first move among the tokens of a variation: the first token without a
/// `.` that keeps a character once its trailing annotation marks are cut.
pub open spec fn first_move_in(tokens: Seq<Seq<char>>) -> Option<Seq<char>>
    decreases tokens.len(),
{
    if tokens.len() == 0 {
        None
    } else if !tokens[0].contains('.') && strip_annotations(tokens[0]).len() > 0 {
        Some(strip_annotations(tokens[0]))
    } else {
        first_move_in(tokens.drop_first())
    }
}

/// The variations of entries, in order.
pub open spec fn entry_lines(es: Seq<(&u8, &PvLineData)>) -> Seq<PvLineData> {
    es.map_values(|e: (&u8, &PvLineData)| *e.1)
}

impl PvObject {
    /// No variations yet, at depth 0.
    pub fn default() -> (p: PvObject)
        ensures
            p.fen@.len() == 0,
            p.depth == 0,
            p.lines@ == Map::<u8, PvLineData>::empty(),
    {
        PvObject { fen: String::new(), depth: 0, lines: HashMap::new() }
    }
}

/// A variation as text: its moves, then `| Eval: (mate n)` or
/// `| Eval:  (cp n)`.
pub open spec fn pv_line_text(l: PvLineData) -> Seq<char> {
    match l.eval_kind {
        EvalKind::Mate => l.moves@ + " | Eval: (mate "@ + signed_decimal(l.eval_value as int) + ")"@,
        EvalKind::Centipawn => l.moves@ + " | Eval:  (cp "@ + signed_decimal(l.eval_value as int) + ")"@,
    }
}

/// The lines of the variations with a rank below `k`, by rank: `  r. `
/// and the variation's text.
pub open spec fn pv_lines_text(m: Map<u8, PvLineData>, k: int) -> Seq<char>
    decreases k,
{
    if k <= 0 {
        Seq::empty()
    } else {
        pv_lines_text(m, k - 1) + if m.contains_key((k - 1) as u8) {
            "  "@ + decimal((k - 1) as nat) + ". "@ + pv_line_text(m[(k - 1) as u8]) + "\n"@
        } else {
            Seq::empty()
        }
    }
}

/// The variations as text: a heading, then a line for each by rank, or a
/// line saying there are none.
pub open spec fn pv_text(p: PvObject) -> Seq<char> {
    "Engine Lines:\n"@ + if p.lines@.len() == 0 {
        "  <no lines>\n"@
    } else {
        pv_lines_text(p.lines@, 256)
    }
}

impl PvLineData {
    /// The variation as text (`pv_line_text`).
    pub fn to_string(&self) -> (s: String)
        ensures
            s@ == pv_line_text(*self),
    {
        let mut s = String::new();
        push_str(&mut s, self.moves.as_str());
        match self.eval_kind {
            EvalKind::Mate => push_str(&mut s, " | Eval: (mate "),
            EvalKind::Centipawn => push_str(&mut s, " | Eval:  (cp "),
        }
        push_signed_decimal(&mut s, self.eval_value as i64);
        push_str(&mut s, ")");
        s
    }
}

impl PvObject {
    /// The variations as text (`pv_text`).
    pub fn to_string(&self) -> (s: String)
        ensures
            s@ == pv_text(*self),
    {
        let mut s = String::new();
        push_str(&mut s, "Engine Lines:\n");
        if self.lines.len() == 0 {
            push_str(&mut s, "  <no lines>\n");
            return s;
        }
        let ghost start = s@;
        let mut k: u16 = 0;
        while k < 256
            invariant
                k <= 256,
                s@ == start + pv_lines_text(self.lines@, k as int),
            decreases 256 - k,
        {
            let key = k as u8;
            assert(key == (k as int) as u8);
            match self.lines.get(&key) {
                Some(line) => {
                    push_str(&mut s, "  ");
                    push_decimal(&mut s, k as u64);
                    push_str(&mut s, ". ");
                    let text = line.to_string();
                    push_str(&mut s, text.as_str());
                    push_str(&mut s, "\n");
                },
                None => {},
            }
            k += 1;
        }
        s
    }
}

/// The score of a variation (`line_score`).
fn score_of(line: &PvLineData) -> (s: i64)
    ensures
        s == line_score(*line),
{
    match line.eval_kind {
        EvalKind::Mate => if line.eval_value >= 0 {
            1_000_000 - line.eval_value as i64
        } else {
            -1_000_000 - line.eval_value as i64
        },
        EvalKind::Centipawn => line.eval_value as i64,
    }
}

/// `s` without its trailing annotation marks.
fn strip_annotation_marks(s: &Vec<char>) -> (t: Vec<char>)
    ensures
        t@ == strip_annotations(s@),
{
    let mut t = s.clone();
    assert(t@ == s@);
    while t.len() > 0 && (t[t.len() - 1] == '+' || t[t.len() - 1] == '#' || t[t.len() - 1] == '!'
        || t[t.len() - 1] == '?')
        invariant
            strip_annotations(t@) == strip_annotations(s@),
        decreases t.len(),
    {
        t.pop();
    }
    t
}

/// Whether `s` holds a `.`.
fn has_dot(s: &Vec<char>) -> (d: bool)
    ensures
        d == s@.contains('.'),
{
    let mut i: usize = 0;
    while i < s.len()
        invariant
            i <= s.len(),
            forall|k: int| 0 <= k < i ==> s@[k] != '.',
        decreases s.len() - i,
    {
        if s[i] == '.' {
            return true;
        }
        i += 1;
    }
    false
}

/// The first move of a variation's moves (`first_move_in` of its tokens).
fn first_move_from_moves(moves: &str) -> (m: Option<String>)
    ensures
        match first_move_in(ws_fields(moves@)) {
            Some(t) => m matches Some(s) && s@ == t,
            None => m is None,
        },
{
    let tokens = split_whitespace(&chars_of(moves));
    let ghost all = views(tokens@);
    assert(all.skip(0) == all);
    let mut i: usize = 0;
    while i < tokens.len()
        invariant
            i <= tokens.len(),
            all == views(tokens@),
            all == ws_fields(moves@),
            first_move_in(all) == first_move_in(all.skip(i as int)),
        decreases tokens.len() - i,
    {
        let t = &tokens[i];
        assert(all.skip(i as int)[0] == t@);
        assert(all.skip(i as int).drop_first() == all.skip(i + 1));
        if !has_dot(t) {
            let cleaned = strip_annotation_marks(t);
            if cleaned.len() > 0 {
                assert(first_move_in(all.skip(i as int)) == Some(strip_annotations(t@)));
                return Some(string_from_chars(&cleaned));
            }
        }
        i += 1;
    }
    assert(all.skip(i as int).len() == 0);
    None
}

/// `m` is the first move of the best variation of `p` (the highest
/// `line_score`, the last of equal ones in some order of its entries), or
/// `None` when there is no variation or its moves hold none.
pub open spec fn is_best_move(p: PvObject, m: Option<Seq<char>>) -> bool {
    exists|es: Seq<(&u8, &PvLineData)>|
        es.len() == p.lines@.dom().len() && es.no_duplicates() && (forall|i: int|
            0 <= i < es.len() ==> p.lines@.contains_key(*(#[trigger] es[i]).0) && p.lines@[*es[i].0]
                == *es[i].1) && match best_of(entry_lines(es)) {
            Some(b) => m == first_move_in(ws_fields(b.moves@)),
            None => m is None,
        }
}

impl PvObject {
    /// The first move of the best variation (the highest `line_score`, the
    /// last of equal ones in the order the map is walked), or `None` when
    /// there is no variation or its moves hold none.
    pub fn best_first_move(&self) -> (m: Option<String>)
        ensures
            self.lines@.dom().len() == 0 ==> m is None,
            is_best_move(
                *self,
                match m {
                    Some(s) => Some(s@),
                    None => None,
                },
            ),
    {
        let mut best: Option<&PvLineData> = None;
        for (_k, line) in it: self.lines.iter()
            invariant
                match best_of(entry_lines(it.seq().take(it.index() as int))) {
                    Some(b) => best matches Some(x) && *x == b,
                    None => best is None,
                },
        {
            proof {
                let k = it.index() as int;
                assert(entry_lines(it.seq().take(k + 1)).drop_last() =~= entry_lines(it.seq().take(k)));
                assert(entry_lines(it.seq().take(k + 1)).last() == *line);
            }
            best = match best {
                Some(b) => if score_of(line) >= score_of(b) {
                    Some(line)
                } else {
                    Some(b)
                },
                None => Some(line),
            };
        }
        match best {
            Some(b) => first_move_from_moves(b.moves.as_str()),
            None => None,
        }
    }
}

/// An opening of the opening book: its name and its moves.
#[derive(Clone, Debug)]
pub struct OpeningEntry {
    pub name: String,
    pub moves: Vec<String>,
}

/// The user's settings as key and value texts, each key once, and whether
/// the settings file could not be read whole.
#[derive(Clone, Debug)]
pub struct Settings {
    pub corrupted: bool,
    pub map: Vec<(String, String)>,
}

/// The value stored under `key`: that of the last entry with this key.
pub open spec fn setting_of(entries: Seq<(String, String)>, key: Seq<char>) -> Option<Seq<char>>
    decreases entries.len(),
{
    if entries.len() == 0 {
        None
    } else if entries.last().0@ == key {
        Some(entries.last().1@)
    } else {
        setting_of(entries.drop_last(), key)
    }
}

/// No key occurs twice.
pub open spec fn keys_unique(entries: Seq<(String, String)>) -> bool {
    forall|i: int, j: int| 0 <= i < j < entries.len() ==> (#[trigger] entries[i]).0@ != (#[trigger] entries[j]).0@
}

/// The entries as pairs of texts.
pub open spec fn entry_views(entries: Seq<(String, String)>) -> Seq<(Seq<char>, Seq<char>)> {
    entries.map_values(|e: (String, String)| (e.0@, e.1@))
}

/// The entries without those under `key`, in their order.
pub open spec fn drop_key(es: Seq<(Seq<char>, Seq<char>)>, key: Seq<char>) -> Seq<(Seq<char>, Seq<char>)>
    decreases es.len(),
{
    if es.len() == 0 {
        es
    } else if es.last().0 == key {
        drop_key(es.drop_last(), key)
    } else {
        drop_key(es.drop_last(), key).push(es.last())
    }
}

/// The entries after storing `val` under `key`: the others in their order,
/// then `key` with `val` last.
pub open spec fn stored(es: Seq<(Seq<char>, Seq<char>)>, key: Seq<char>, val: Seq<char>) -> Seq<
    (Seq<char>, Seq<char>),
> {
    drop_key(es, key).push((key, val))
}

/// Some entry is under `key`.
pub open spec fn has_key(es: Seq<(Seq<char>, Seq<char>)>, key: Seq<char>) -> bool {
    exists|i: int| 0 <= i < es.len() && (#[trigger] es[i]).0 == key
}

/// No key occurs twice among the entries.
pub open spec fn view_keys_unique(es: Seq<(Seq<char>, Seq<char>)>) -> bool {
    forall|i: int, j: int| 0 <= i < j < es.len() ==> (#[trigger] es[i]).0 != (#[trigger] es[j]).0
}

/// Dropping a key twice drops it once, and leaves no entry under it.
pub proof fn lemma_drop_key_twice(es: Seq<(Seq<char>, Seq<char>)>, key: Seq<char>)
    ensures
        drop_key(drop_key(es, key), key) == drop_key(es, key),
        !has_key(drop_key(es, key), key),
    decreases es.len(),
{
    if es.len() > 0 {
        lemma_drop_key_twice(es.drop_last(), key);
        let d = drop_key(es.drop_last(), key);
        if es.last().0 != key {
            let e = d.push(es.last());
            assert(e.drop_last() == d);
            assert(!has_key(e, key)) by {
                if has_key(e, key) {
                    let i = choose|i: int| 0 <= i < e.len() && (#[trigger] e[i]).0 == key;
                    if i < d.len() {
                        assert(d[i] == e[i]);
                    }
                }
            }
        }
    }
}

/// With each key once, dropping a key removes one entry where there is one
/// under it, and none otherwise.
pub proof fn lemma_drop_key_len(es: Seq<(Seq<char>, Seq<char>)>, key: Seq<char>)
    requires
        view_keys_unique(es),
    ensures
        drop_key(es, key).len() == es.len() - if has_key(es, key) {
            1int
        } else {
            0int
        },
    decreases es.len(),
{
    if es.len() > 0 {
        let init = es.drop_last();
        assert(view_keys_unique(init)) by {
            assert forall|i: int, j: int| 0 <= i < j < init.len() implies (#[trigger] init[i]).0 != (
            #[trigger] init[j]).0 by {
                assert(init[i] == es[i] && init[j] == es[j]);
            }
        }
        lemma_drop_key_len(init, key);
        if es.last().0 == key {
            assert(!has_key(init, key)) by {
                if has_key(init, key) {
                    let i = choose|i: int| 0 <= i < init.len() && (#[trigger] init[i]).0 == key;
                    assert(es[i] == init[i]);
                    assert(es[es.len() - 1] == es.last());
                }
            }
            assert(has_key(es, key)) by {
                assert(es[es.len() - 1] == es.last());
            }
        } else {
            assert(has_key(es, key) == has_key(init, key)) by {
                if has_key(es, key) {
                    let i = choose|i: int| 0 <= i < es.len() && (#[trigger] es[i]).0 == key;
                    assert(i < init.len());
                    assert(init[i] == es[i]);
                }
                if has_key(init, key) {
                    let i = choose|i: int| 0 <= i < init.len() && (#[trigger] init[i]).0 == key;
                    assert(es[i] == init[i]);
                }
            }
        }
    }
}

/// Dropping a key that no entry has leaves the entries as they are.
pub proof fn lemma_drop_key_absent(es: Seq<(Seq<char>, Seq<char>)>, key: Seq<char>)
    requires
        !has_key(es, key),
    ensures
        drop_key(es, key) == es,
    decreases es.len(),
{
    if es.len() > 0 {
        let init = es.drop_last();
        assert(!has_key(init, key)) by {
            if has_key(init, key) {
                let i = choose|i: int| 0 <= i < init.len() && (#[trigger] init[i]).0 == key;
                assert(es[i] == init[i]);
            }
        }
        assert(es[es.len() - 1] == es.last());
        lemma_drop_key_absent(init, key);
        assert(init.push(es.last()) == es);
    }
}

/// With each key once, storing again the value that the last entry holds
/// under its key changes nothing.
pub proof fn lemma_store_last_again(es: Seq<(Seq<char>, Seq<char>)>, key: Seq<char>, val: Seq<char>)
    requires
        view_keys_unique(es),
        es.len() > 0,
        es.last() == (key, val),
    ensures
        stored(es, key, val) == es,
{
    let init = es.drop_last();
    assert(!has_key(init, key)) by {
        if has_key(init, key) {
            let i = choose|i: int| 0 <= i < init.len() && (#[trigger] init[i]).0 == key;
            assert(es[i] == init[i]);
            assert(es[es.len() - 1] == es.last());
        }
    }
    lemma_drop_key_absent(init, key);
    assert(init.push((key, val)) == es);
}

/// Settings that keep each key once give entries with each key once.
pub proof fn lemma_settings_views_unique(s: Settings)
    requires
        s.wf(),
    ensures
        view_keys_unique(entry_views(s.map@)),
{
    let es = entry_views(s.map@);
    assert forall|i: int, j: int| 0 <= i < j < es.len() implies (#[trigger] es[i]).0 != (#[trigger] es[j]).0 by {
        assert(s.map@[i].0@ != s.map@[j].0@);
    }
}

/// Storing a value adds an entry only for a key that had none: with each key
/// once, the settings grow by one entry exactly when `key` is new.
pub proof fn lemma_settings_update_len(es: Seq<(Seq<char>, Seq<char>)>, key: Seq<char>, val: Seq<char>)
    requires
        view_keys_unique(es),
    ensures
        stored(es, key, val).len() == es.len() + if has_key(es, key) {
            0int
        } else {
            1int
        },
{
    lemma_drop_key_len(es, key);
}

/// Storing the same value under the same key a second time changes nothing.
pub proof fn lemma_settings_update_twice(es: Seq<(Seq<char>, Seq<char>)>, key: Seq<char>, val: Seq<char>)
    ensures
        stored(stored(es, key, val), key, val) == stored(es, key, val),
{
    let d = drop_key(es, key);
    let s1 = d.push((key, val));
    assert(s1.drop_last() == d);
    lemma_drop_key_twice(es, key);
    assert(drop_key(s1, key) == d);
}

/// A key not among the entries has no value.
pub proof fn lemma_setting_absent(entries: Seq<(String, String)>, key: Seq<char>)
    requires
        forall|i: int| 0 <= i < entries.len() ==> (#[trigger] entries[i]).0@ != key,
    ensures
        setting_of(entries, key) is None,
    decreases entries.len(),
{
    if entries.len() > 0 {
        assert(entries.last() == entries[entries.len() - 1]);
        lemma_setting_absent(entries.drop_last(), key);
    }
}

impl Settings {
    /// The settings keep each key once.
    pub open spec fn wf(&self) -> bool {
        keys_unique(self.map@)
    }

    /// The value stored under `key`.
    pub open spec fn value_of(&self, key: Seq<char>) -> Option<Seq<char>> {
        setting_of(self.map@, key)
    }

    /// Stores `val` under `key`, replacing any value it had.
    pub fn update(&mut self, key: String, val: String)
        requires
            old(self).wf(),
        ensures
            final(self).wf(),
            final(self).corrupted == old(self).corrupted,
            forall|k: Seq<char>| #[trigger] final(self).value_of(k) == if k == key@ {
                Some(val@)
            } else {
                old(self).value_of(k)
            },
            entry_views(final(self).map@) == stored(entry_views(old(self).map@), key@, val@),
            final(self).map@.len() == old(self).map@.len() + if has_key(entry_views(old(self).map@), key@) {
                0int
            } else {
                1int
            },
            old(self).map@.len() > 0 && entry_views(old(self).map@).last() == (key@, val@) ==> entry_views(
                final(self).map@,
            ) == entry_views(old(self).map@),
    {
        proof {
            lemma_settings_views_unique(*old(self));
            lemma_settings_update_len(entry_views(old(self).map@), key@, val@);
            if old(self).map@.len() > 0 && entry_views(old(self).map@).last() == (key@, val@) {
                lemma_store_last_again(entry_views(old(self).map@), key@, val@);
            }
        }
        let mut kept: Vec<(String, String)> = Vec::new();
        let mut i: usize = 0;
        while i < self.map.len()
            invariant
                i <= self.map.len(),
                self.map@ == old(self).map@,
                keys_unique(self.map@),
                keys_unique(kept@),
                forall|m: int| 0 <= m < kept@.len() ==> (#[trigger] kept@[m]).0@ != key@,
                forall|m: int| 0 <= m < kept@.len() ==> exists|n: int| 0 <= n < i && (#[trigger] self.map@[n]) == #[trigger] kept@[m],
                forall|k: Seq<char>| k != key@ ==> #[trigger] setting_of(kept@, k) == setting_of(self.map@.take(i as int), k),
                entry_views(kept@) == drop_key(entry_views(self.map@.take(i as int)), key@),
            decreases self.map.len() - i,
        {
            let entry = &self.map[i];
            assert(self.map@.take(i + 1).drop_last() == self.map@.take(i as int));
            assert(self.map@.take(i + 1).last() == self.map@[i as int]);
            proof {
                let vt = entry_views(self.map@.take(i + 1));
                assert(vt.drop_last() == entry_views(self.map@.take(i as int)));
                assert(vt.last() == (self.map@[i as int].0@, self.map@[i as int].1@));
            }
            if !str_eq(entry.0.as_str(), key.as_str()) {
                let ghost before = kept@;
                let copy = (entry.0.clone(), entry.1.clone());
                kept.push(copy);
                proof {
                    assert(kept@.drop_last() == before);
                    assert forall|a: int, b: int| 0 <= a < b < kept@.len() implies (#[trigger] kept@[a]).0@ != (#[trigger] kept@[b]).0@ by {
                        if b == kept@.len() - 1 {
                            let n = choose|n: int| 0 <= n < i && self.map@[n] == kept@[a];
                            assert(self.map@[n].0@ != self.map@[i as int].0@);
                        }
                    }
                    assert forall|m: int| 0 <= m < kept@.len() implies exists|n: int| 0 <= n < i + 1 && (#[trigger] self.map@[n]) == #[trigger] kept@[m] by {
                        if m == kept@.len() - 1 {
                            assert(self.map@[i as int] == kept@[m]);
                        } else {
                            let n = choose|n: int| 0 <= n < i && self.map@[n] == before[m];
                            assert(self.map@[n] == kept@[m]);
                        }
                    }
                    assert forall|k: Seq<char>| k != key@ implies #[trigger] setting_of(kept@, k) == setting_of(self.map@.take(i + 1), k) by {
                        assert(setting_of(kept@, k) == if copy.0@ == k { Some(copy.1@) } else { setting_of(before, k) });
                    }
                    assert(entry_views(kept@) == entry_views(before).push((copy.0@, copy.1@)));
                }
            } else {
                assert forall|k: Seq<char>| k != key@ implies #[trigger] setting_of(kept@, k) == setting_of(self.map@.take(i + 1), k) by {
                    assert(setting_of(self.map@.take(i + 1), k) == setting_of(self.map@.take(i as int), k));
                }
            }
            i += 1;
        }
        assert(self.map@.take(self.map@.len() as int) == self.map@);
        let ghost before = kept@;
        kept.push((key, val));
        proof {
            assert(kept@.drop_last() == before);
            assert(entry_views(kept@) == entry_views(before).push((key@, val@)));
            assert forall|a: int, b: int| 0 <= a < b < kept@.len() implies (#[trigger] kept@[a]).0@ != (#[trigger] kept@[b]).0@ by {
                if b == kept@.len() - 1 {
                    assert(before[a].0@ != key@);
                }
            }
            assert forall|k: Seq<char>| #[trigger] setting_of(kept@, k) == if k == key@ {
                Some(val@)
            } else {
                setting_of(old(self).map@, k)
            } by {
                if k != key@ {
                    assert(setting_of(kept@, k) == setting_of(before, k));
                }
            }
        }
        self.map = kept;
    }

    /// The value under `key`; where there is none, `default` is stored under
    /// it first and returned.
    pub fn entry_or_insert(&mut self, key: &str, default: &str) -> (v: String)
        requires
            old(self).wf(),
        ensures
            final(self).wf(),
            final(self).corrupted == old(self).corrupted,
            match old(self).value_of(key@) {
                Some(t) => v@ == t && final(self).map@ == old(self).map@,
                None => v@ == default@ && forall|k: Seq<char>| #[trigger] final(self).value_of(k) == if k == key@ {
                    Some(default@)
                } else {
                    old(self).value_of(k)
                },
            },
    {
        match self.get(key) {
            Some(v) => v,
            None => {
                self.update(key.to_string(), default.to_string());
                default.to_string()
            },
        }
    }

    /// The settings as a configuration text: a `key=value` line for each entry,
    /// trimmed of white space at both ends.
    pub fn config_text(&self) -> (s: String)
        ensures
            s@ == trim(config_lines(self.map@)),
    {
        let mut text: Vec<char> = Vec::new();
        let mut i: usize = 0;
        while i < self.map.len()
            invariant
                i <= self.map.len(),
                text@ == config_lines(self.map@.take(i as int)),
            decreases self.map.len() - i,
        {
            let mut line = String::new();
            push_str(&mut line, self.map[i].0.as_str());
            line.push('=');
            push_str(&mut line, self.map[i].1.as_str());
            line.push('\n');
            let line_chars = chars_of(line.as_str());
            let mut k: usize = 0;
            let ghost start = text@;
            while k < line_chars.len()
                invariant
                    k <= line_chars.len(),
                    text@ == start + line_chars@.take(k as int),
                decreases line_chars.len() - k,
            {
                text.push(line_chars[k]);
                assert(line_chars@.take(k + 1) == line_chars@.take(k as int).push(line_chars@[k as int]));
                k += 1;
            }
            assert(line_chars@.take(line_chars@.len() as int) == line_chars@);
            assert(self.map@.take(i + 1).drop_last() == self.map@.take(i as int));
            i += 1;
        }
        assert(self.map@.take(self.map@.len() as int) == self.map@);
        string_from_chars(&trim_chars(&text))
    }
}

/// The lines `key=value` of entries, each ending in a line break.
pub open spec fn config_lines(entries: Seq<(String, String)>) -> Seq<char>
    decreases entries.len(),
{
    if entries.len() == 0 {
        Seq::empty()
    } else {
        config_lines(entries.drop_last()) + entries.last().0@ + seq!['='] + entries.last().1@ + seq!['\n']
    }
}

/// The value a list of `key=value` lines gives `key`: the text between the
/// first and the second `=` of the last line whose text before the first `=`
/// is the key.
pub open spec fn line_setting(lines: Seq<Seq<char>>, key: Seq<char>) -> Option<Seq<char>>
    decreases lines.len(),
{
    if lines.len() == 0 {
        None
    } else if split_on(lines.last(), '=')[0] == key {
        Some(split_on(lines.last(), '=')[1])
    } else {
        line_setting(lines.drop_last(), key)
    }
}

/// Every line holds a `=`.
pub open spec fn lines_have_equals(lines: Seq<Seq<char>>) -> bool {
    forall|i: int| 0 <= i < lines.len() ==> (#[trigger] lines[i]).contains('=')
}

/// Splitting at a character a text holds gives at least two parts.
pub proof fn lemma_split_has_two(s: Seq<char>, sep: char)
    requires
        s.contains(sep),
    ensures
        split_on(s, sep).len() >= 2,
{
    let k = choose|k: int| 0 <= k < s.len() && s[k] == sep;
    lemma_split_scan_grows(s, sep, k);
}

/// A split scan has finished a part for each separator it has passed.
proof fn lemma_split_scan_grows(s: Seq<char>, sep: char, k: int)
    requires
        0 <= k < s.len(),
        s[k] == sep,
    ensures
        crate::text::split_scan((Seq::empty(), Seq::empty()), s, sep).0.len() >= 1,
    decreases s.len(),
{
    let init = (Seq::<Seq<char>>::empty(), Seq::<char>::empty());
    if k < s.len() - 1 {
        assert(s.drop_last()[k] == sep);
        lemma_split_scan_grows(s.drop_last(), sep, k);
    }
}

/// The settings of `key=value` lines, later lines overriding earlier ones,
/// with the corruption flag given. Every line must hold a `=`.
pub fn settings_from_lines(lines: &Vec<String>, corrupted: bool) -> (s: Settings)
    requires
        lines_have_equals(lines@.map_values(|l: String| l@)),
    ensures
        s.wf(),
        s.corrupted == corrupted,
        forall|k: Seq<char>| #[trigger] s.value_of(k) == line_setting(lines@.map_values(|l: String| l@), k),
{
    let ghost all = lines@.map_values(|l: String| l@);
    let mut settings = Settings { corrupted, map: Vec::new() };
    let mut i: usize = 0;
    while i < lines.len()
        invariant
            i <= lines.len(),
            all == lines@.map_values(|l: String| l@),
            lines_have_equals(all),
            settings.wf(),
            settings.corrupted == corrupted,
            forall|k: Seq<char>| #[trigger] settings.value_of(k) == line_setting(all.take(i as int), k),
        decreases lines.len() - i,
    {
        let parts = split_chars(&chars_of(lines[i].as_str()), '=');
        proof {
            assert(all[i as int] == lines@[i as int]@);
            lemma_split_has_two(all[i as int], '=');
            assert(all.take(i + 1).drop_last() == all.take(i as int));
            assert(all.take(i + 1).last() == all[i as int]);
        }
        let key = string_from_chars(&parts[0]);
        let value = string_from_chars(&parts[1]);
        settings.update(key, value);
        i += 1;
    }
    assert(all.take(lines@.len() as int) == all);
    settings
}

impl Settings {
    /// The value stored under `key`, if any.
    pub fn get(&self, key: &str) -> (v: Option<String>)
        requires
            self.wf(),
        ensures
            match self.value_of(key@) {
                Some(t) => v matches Some(s) && s@ == t,
                None => v is None,
            },
    {
        let mut i: usize = 0;
        while i < self.map.len()
            invariant
                i <= self.map.len(),
                self.wf(),
                forall|m: int| 0 <= m < i ==> (#[trigger] self.map@[m]).0@ != key@,
            decreases self.map.len() - i,
        {
            if str_eq(self.map[i].0.as_str(), key) {
                proof {
                    lemma_setting_unique(self.map@, i as int);
                }
                return Some(self.map[i].1.clone());
            }
            i += 1;
        }
        proof {
            lemma_setting_absent(self.map@, key@);
        }
        None
    }
}

/// With each key once, the value under an entry's key is that entry's.
pub proof fn lemma_setting_unique(entries: Seq<(String, String)>, i: int)
    requires
        keys_unique(entries),
        0 <= i < entries.len(),
    ensures
        setting_of(entries, entries[i].0@) == Some(entries[i].1@),
    decreases entries.len(),
{
    if i < entries.len() - 1 {
        assert(entries.last() == entries[entries.len() - 1]);
        assert(entries.drop_last()[i] == entries[i]);
        lemma_setting_unique(entries.drop_last(), i);
    }
}

/// The number stored under `key`, when it is there and reads as a `usize`.
pub open spec fn setting_number(s: Settings, key: Seq<char>) -> Option<usize> {
    match s.value_of(key) {
        Some(v) => parse_usize_spec(v),
        None => None,
    }
}

/// The analysis settings: the number of variations (`MultiPV`), threads
/// (`Threads`) and hash size (`HashSize`), when all three are stored as
/// numbers.
pub fn get_analyzer_settings(settings: &Settings) -> (r: Option<(usize, usize, usize)>)
    requires
        settings.wf(),
    ensures
        r == match (
            setting_number(*settings, "MultiPV"@),
            setting_number(*settings, "Threads"@),
            setting_number(*settings, "HashSize"@),
        ) {
            (Some(p), Some(t), Some(h)) => Some((p, t, h)),
            _ => None,
        },
{
    let pvs = match settings.get("MultiPV") {
        Some(val) => match parse_usize(&chars_of(val.as_str())) {
            Some(v) => v,
            None => {
                return None;
            },
        },
        None => {
            return None;
        },
    };
    let th = match settings.get("Threads") {
        Some(val) => match parse_usize(&chars_of(val.as_str())) {
            Some(v) => v,
            None => {
                return None;
            },
        },
        None => {
            return None;
        },
    };
    let hs = match settings.get("HashSize") {
        Some(val) => match parse_usize(&chars_of(val.as_str())) {
            Some(v) => v,
            None => {
                return None;
            },
        },
        None => {
            return None;
        },
    };
    Some((pvs, th, hs))
}

} // verus!
