//! Pipelines: splitting a line at `|`, and the wiring of the stages.

use crate::text::{char_is_whitespace, is_whitespace, slice_chars, substring, to_chars};
use vstd::prelude::*;

verus! {

/// The words of `s[..to]` from index `at` on, where the word being read
/// began at `start` (`start == at` where none is being read).
pub open spec fn words_from(s: Seq<char>, to: int, start: int, at: int) -> Seq<Seq<char>>
    decreases to - at,
{
    if at >= to {
        if start < at {
            seq![s.subrange(start, at)]
        } else {
            Seq::empty()
        }
    } else if is_whitespace(s[at]) {
        if start < at {
            seq![s.subrange(start, at)] + words_from(s, to, at + 1, at + 1)
        } else {
            words_from(s, to, at + 1, at + 1)
        }
    } else {
        words_from(s, to, start, at + 1)
    }
}

/// The words of `s`: its longest runs of characters that are no
/// whitespace, in order.
pub open spec fn whitespace_words(s: Seq<char>) -> Seq<Seq<char>> {
    words_from(s, s.len() as int, 0, 0)
}

/// Where the scanner of a stage stands after some prefix of its text.
pub struct WordScan {
    /// The words completed so far.
    pub words: Seq<Seq<char>>,
    /// The word being collected.
    pub current: Seq<char>,
    /// Whether a quote is open.
    pub in_quotes: bool,
    /// The character that opened the last quote.
    pub quote_char: char,
}

/// The scanner before any input.
pub open spec fn word_start() -> WordScan {
    WordScan { words: Seq::empty(), current: Seq::empty(), in_quotes: false, quote_char: ' ' }
}

/// One step of the scanner on character `c`. Quotes group and are taken
/// off; whitespace outside quotes ends a word; every other character,
/// the backslash among them, is taken as it is, for the program to read.
pub open spec fn word_step(st: WordScan, c: char) -> WordScan {
    if (c == '"' || c == '\'') && !st.in_quotes {
        WordScan { in_quotes: true, quote_char: c, ..st }
    } else if st.in_quotes && c == st.quote_char {
        WordScan { in_quotes: false, ..st }
    } else if is_whitespace(c) && !st.in_quotes {
        if st.current.len() > 0 {
            WordScan { words: st.words.push(st.current), current: Seq::empty(), ..st }
        } else {
            st
        }
    } else {
        WordScan { current: st.current.push(c), ..st }
    }
}

/// The scanner after the first `n` characters of `s`.
pub open spec fn word_scan(s: Seq<char>, n: int) -> WordScan
    decreases n,
{
    if n <= 0 {
        word_start()
    } else {
        word_step(word_scan(s, n - 1), s[n - 1])
    }
}

/// The words of the stage `s`: the program and its arguments.
pub open spec fn stage_words(s: Seq<char>) -> Seq<Seq<char>> {
    let st = word_scan(s, s.len() as int);
    if st.current.len() > 0 {
        st.words.push(st.current)
    } else {
        st.words
    }
}

/// The texts of the stages of `s` from index `at` on, where the stage being
/// read began at `start`: a `|` outside quotes ends a stage.
pub open spec fn stage_texts_from(s: Seq<char>, start: int, at: int) -> Seq<Seq<char>>
    decreases s.len() - at,
{
    if at >= s.len() {
        seq![s.subrange(start, s.len() as int)]
    } else if s[at] == '|' && !word_scan(s, at).in_quotes {
        seq![s.subrange(start, at)] + stage_texts_from(s, at + 1, at + 1)
    } else {
        stage_texts_from(s, start, at + 1)
    }
}

/// The texts of the stages of the pipeline `s`.
pub open spec fn stage_texts(s: Seq<char>) -> Seq<Seq<char>> {
    stage_texts_from(s, 0, 0)
}

/// The stages of the pipeline `s`: the words of each text between two `|`.
pub open spec fn pipeline_of(s: Seq<char>) -> Seq<Seq<Seq<char>>> {
    Seq::new(stage_texts(s).len(), |i: int| stage_words(stage_texts(s)[i]))
}

/// The words of the stage `chars`.
fn scan_words(chars: &Vec<char>) -> (words: Vec<String>)
    ensures
        words.deep_view() == stage_words(chars@),
{
    let n = chars.len();
    let mut words: Vec<String> = Vec::new();
    let mut current = String::new();
    let mut in_quotes = false;
    let mut quote_char = ' ';
    let mut i: usize = 0;
    assert(words.deep_view() =~= Seq::<Seq<char>>::empty());
    while i < n
        invariant
            0 <= i <= n,
            n == chars.len(),
            word_scan(chars@, i as int) == (WordScan {
                words: words.deep_view(),
                current: current@,
                in_quotes,
                quote_char,
            }),
        decreases n - i,
    {
        let c = chars[i];
        let ghost before = words.deep_view();
        if (c == '"' || c == '\'') && !in_quotes {
            in_quotes = true;
            quote_char = c;
        } else if in_quotes && c == quote_char {
            in_quotes = false;
        } else if char_is_whitespace(c) && !in_quotes {
            if !current.as_str().is_empty() {
                let ghost done = current@;
                words.push(current);
                current = String::new();
                assert(words.deep_view() =~= before.push(done));
            }
        } else {
            current.push(c);
        }
        i += 1;
    }
    if !current.as_str().is_empty() {
        let ghost before = words.deep_view();
        let ghost done = current@;
        words.push(current);
        assert(words.deep_view() =~= before.push(done));
    }
    words
}

/// The words of `v` that lie between the indices `from` and `to`.
fn words_between(v: &Vec<char>, from: usize, to: usize) -> (words: Vec<String>)
    requires
        from <= to <= v.len(),
    ensures
        words.deep_view() == words_from(v@, to as int, from as int, from as int),
{
    let mut words: Vec<String> = Vec::new();
    let mut start: usize = from;
    let mut i: usize = from;
    assert(words.deep_view() + words_from(v@, to as int, from as int, from as int)
        =~= words_from(v@, to as int, from as int, from as int));
    while i < to
        invariant
            from <= start <= i <= to <= v.len(),
            words.deep_view() + words_from(v@, to as int, start as int, i as int) == words_from(
                v@,
                to as int,
                from as int,
                from as int,
            ),
        decreases to - i,
    {
        if char_is_whitespace(v[i]) {
            if start < i {
                let ghost before = words.deep_view();
                let word = substring(v, start, i);
                words.push(word);
                proof {
                    let rest = words_from(v@, to as int, i + 1, i + 1);
                    assert(words.deep_view() =~= before.push(word@));
                    assert(before.push(word@) + rest =~= before + (seq![word@] + rest));
                }
            }
            start = i + 1;
        }
        i += 1;
    }
    if start < to {
        let ghost before = words.deep_view();
        let word = substring(v, start, to);
        words.push(word);
        assert(words.deep_view() =~= before.push(word@));
        assert(before.push(word@) =~= before + seq![word@]);
    } else {
        assert(words.deep_view() + Seq::<Seq<char>>::empty() =~= words.deep_view());
    }
    words
}

/// The words of `input`, split at whitespace.
pub fn split_whitespace(input: &str) -> (words: Vec<String>)
    ensures
        words.deep_view() == whitespace_words(input@),
{
    let v = to_chars(input);
    words_between(&v, 0, v.len())
}

/// Splits `input` at every `|` outside quotes and each stage into its
/// words.
pub fn parse_pipeline(input: &str) -> (stages: Vec<Vec<String>>)
    ensures
        stages.deep_view() == pipeline_of(input@),
{
    let v = to_chars(input);
    let n = v.len();
    let mut stages: Vec<Vec<String>> = Vec::new();
    let ghost mut pieces: Seq<Seq<char>> = Seq::empty();
    let mut start: usize = 0;
    let mut i: usize = 0;
    let mut in_quotes = false;
    let mut quote_char = ' ';
    assert(pieces + stage_texts_from(v@, 0, 0) =~= stage_texts(v@));
    assert(stages.deep_view() =~= Seq::new(pieces.len(), |k: int| stage_words(pieces[k])));
    while i < n
        invariant
            0 <= start <= i <= n,
            n == v.len(),
            v@ == input@,
            word_scan(v@, i as int).in_quotes == in_quotes,
            word_scan(v@, i as int).quote_char == quote_char,
            pieces + stage_texts_from(v@, start as int, i as int) == stage_texts(v@),
            stages.deep_view() == Seq::new(pieces.len(), |k: int| stage_words(pieces[k])),
        decreases n - i,
    {
        let c = v[i];
        if c == '|' && !in_quotes {
            let ghost before = stages.deep_view();
            let ghost old_pieces = pieces;
            let piece = slice_chars(&v, start, i);
            let words = scan_words(&piece);
            proof {
                let rest = stage_texts_from(v@, i + 1, i + 1);
                pieces = old_pieces.push(piece@);
                assert(old_pieces.push(piece@) + rest =~= old_pieces + (seq![piece@] + rest));
            }
            stages.push(words);
            assert(stages.deep_view() =~= before.push(words.deep_view()));
            assert(stages.deep_view() =~= Seq::new(
                pieces.len(),
                |k: int| stage_words(pieces[k]),
            ));
            start = i + 1;
        }
        if (c == '"' || c == '\'') && !in_quotes {
            in_quotes = true;
            quote_char = c;
        } else if in_quotes && c == quote_char {
            in_quotes = false;
        }
        i += 1;
    }
    let ghost before = stages.deep_view();
    let piece = slice_chars(&v, start, n);
    let words = scan_words(&piece);
    proof {
        assert(pieces.push(piece@) =~= pieces + seq![piece@]);
        pieces = pieces.push(piece@);
    }
    stages.push(words);
    assert(stages.deep_view() =~= before.push(words.deep_view()));
    assert(stages.deep_view() =~= Seq::new(pieces.len(), |k: int| stage_words(pieces[k])));
    stages
}

/// One process of a pipeline and the way its standard streams are wired.
#[derive(Debug)]
pub struct Stage {
    pub program: String,
    pub args: Vec<String>,
    /// Standard input is the output of the stage before; else it is the
    /// shell's own.
    pub stdin_piped: bool,
    /// Standard output goes into a pipe; else it is the shell's own.
    pub stdout_piped: bool,
}

/// A [`Stage`] with its texts as character sequences.
pub struct StageView {
    pub program: Seq<char>,
    pub args: Seq<Seq<char>>,
    pub stdin_piped: bool,
    pub stdout_piped: bool,
}

impl View for Stage {
    type V = StageView;

    open spec fn view(&self) -> StageView {
        StageView {
            program: self.program@,
            args: self.args.deep_view(),
            stdin_piped: self.stdin_piped,
            stdout_piped: self.stdout_piped,
        }
    }
}

/// The views of the stages `v`.
pub open spec fn stages_view(v: Seq<Stage>) -> Seq<StageView> {
    Seq::new(v.len(), |i: int| v[i]@)
}

/// The processes of the commands from index `at` on; `fed` says whether a
/// process before them left a pipe to read from.
pub open spec fn plan_from(commands: Seq<Seq<Seq<char>>>, at: int, fed: bool) -> Seq<StageView>
    decreases commands.len() - at,
{
    if at < 0 || at >= commands.len() {
        Seq::empty()
    } else if commands[at].len() == 0 {
        plan_from(commands, at + 1, fed)
    } else {
        seq![
            StageView {
                program: commands[at][0],
                args: commands[at].drop_first(),
                stdin_piped: fed,
                stdout_piped: at < commands.len() - 1,
            },
        ] + plan_from(commands, at + 1, true)
    }
}

/// The processes of a pipeline. A command without words starts no process.
/// Every command but the last writes into a pipe, and each process after
/// the first reads from the pipe of the process before it.
pub open spec fn plan_of(commands: Seq<Seq<Seq<char>>>) -> Seq<StageView> {
    plan_from(commands, 0, false)
}

/// A copy of the strings `v[from..]`.
fn copy_strings_from(v: &Vec<String>, from: usize) -> (r: Vec<String>)
    requires
        from <= v.len(),
    ensures
        r.deep_view() == v.deep_view().subrange(from as int, v.len() as int),
{
    let mut r: Vec<String> = Vec::new();
    let mut i: usize = from;
    assert(r.deep_view() =~= v.deep_view().subrange(from as int, from as int));
    while i < v.len()
        invariant
            from <= i <= v.len(),
            r.deep_view() == v.deep_view().subrange(from as int, i as int),
        decreases v.len() - i,
    {
        let ghost before = r.deep_view();
        r.push(v[i].clone());
        assert(r.deep_view() =~= before.push(v@[i as int]@));
        assert(r.deep_view() =~= v.deep_view().subrange(from as int, i + 1));
        i += 1;
    }
    r
}

/// Lays out the processes of a pipeline as [`plan_of`] says.
pub fn plan_pipeline(commands: &Vec<Vec<String>>) -> (stages: Vec<Stage>)
    ensures
        stages_view(stages@) == plan_of(commands.deep_view()),
{
    let ghost cmds = commands.deep_view();
    let n = commands.len();
    let mut stages: Vec<Stage> = Vec::new();
    let mut fed = false;
    let mut i: usize = 0;
    assert(stages_view(stages@) + plan_from(cmds, 0, false) =~= plan_of(cmds));
    while i < n
        invariant
            0 <= i <= n,
            n == commands.len(),
            cmds == commands.deep_view(),
            stages_view(stages@) + plan_from(cmds, i as int, fed) == plan_of(cmds),
        decreases n - i,
    {
        let parts = &commands[i];
        assert(cmds[i as int] == parts.deep_view());
        if parts.len() > 0 {
            let ghost before = stages_view(stages@);
            let args = copy_strings_from(parts, 1);
            assert(args.deep_view() =~= parts.deep_view().drop_first());
            let stage = Stage {
                program: parts[0].clone(),
                args,
                stdin_piped: fed,
                stdout_piped: i < n - 1,
            };
            stages.push(stage);
            proof {
                let rest = plan_from(cmds, i + 1, true);
                assert(stage@.program == cmds[i as int][0]);
                assert(stages_view(stages@) =~= before.push(stage@));
                assert(before.push(stage@) + rest =~= before + (seq![stage@] + rest));
            }
            fed = true;
        }
        i += 1;
    }
    assert(stages_view(stages@) + Seq::<StageView>::empty() =~= stages_view(stages@));
    stages
}

/// Where every command of a pipeline has words, every command starts a
/// process; each process but the first reads from the one before it, and
/// each but the last writes to the one behind it.
pub proof fn lemma_pipeline_wiring(commands: Seq<Seq<Seq<char>>>)
    requires
        forall|i: int| 0 <= i < commands.len() ==> (#[trigger] commands[i]).len() > 0,
    ensures
        plan_of(commands).len() == commands.len(),
        forall|i: int|
            0 <= i < commands.len() ==> {
                &&& (#[trigger] plan_of(commands)[i]).program == commands[i][0]
                &&& plan_of(commands)[i].args == commands[i].drop_first()
                &&& plan_of(commands)[i].stdin_piped == (i > 0)
                &&& plan_of(commands)[i].stdout_piped == (i < commands.len() - 1)
            },
{
    lemma_plan_from(commands, 0, false);
    let plan = plan_of(commands);
    assert forall|i: int| 0 <= i < commands.len() implies {
        &&& (#[trigger] plan[i]).program == commands[i][0]
        &&& plan[i].args == commands[i].drop_first()
        &&& plan[i].stdin_piped == (i > 0)
        &&& plan[i].stdout_piped == (i < commands.len() - 1)
    } by {
        assert(plan[i] == plan_from(commands, 0, false)[i - 0]);
    }
}

/// The processes of the commands from `at` on, where each has words.
proof fn lemma_plan_from(commands: Seq<Seq<Seq<char>>>, at: int, fed: bool)
    requires
        0 <= at <= commands.len(),
        forall|i: int| 0 <= i < commands.len() ==> (#[trigger] commands[i]).len() > 0,
    ensures
        plan_from(commands, at, fed).len() == commands.len() - at,
        forall|i: int|
            at <= i < commands.len() ==> {
                &&& (#[trigger] plan_from(commands, at, fed)[i - at]).program == commands[i][0]
                &&& plan_from(commands, at, fed)[i - at].args == commands[i].drop_first()
                &&& plan_from(commands, at, fed)[i - at].stdin_piped == (i > at || fed)
                &&& plan_from(commands, at, fed)[i - at].stdout_piped == (i < commands.len() - 1)
            },
    decreases commands.len() - at,
{
    if at < commands.len() {
        lemma_plan_from(commands, at + 1, true);
        let rest = plan_from(commands, at + 1, true);
        let plan = plan_from(commands, at, fed);
        assert(commands[at].len() > 0);
        assert forall|i: int| at <= i < commands.len() implies {
            &&& (#[trigger] plan[i - at]).program == commands[i][0]
            &&& plan[i - at].args == commands[i].drop_first()
            &&& plan[i - at].stdin_piped == (i > at || fed)
            &&& plan[i - at].stdout_piped == (i < commands.len() - 1)
        } by {
            if i > at {
                assert(plan[i - at] == rest[i - (at + 1)]);
            }
        }
    }
}

/// What the caller of a [`PipelineRun`] does next.
#[derive(Debug)]
pub enum PipelineStep {
    /// Start this process and say whether it started.
    Spawn(Stage),
    /// Wait for the process that was started as number `0`, `1`, ... and
    /// say how it ended.
    Wait(usize),
    /// Nothing is left to do; the pipeline succeeded or failed.
    Finished(bool),
}

/// A [`PipelineStep`] with its texts as character sequences.
pub enum PipelineStepView {
    Spawn(StageView),
    Wait(int),
    Finished(bool),
}

impl View for PipelineStep {
    type V = PipelineStepView;

    open spec fn view(&self) -> PipelineStepView {
        match *self {
            PipelineStep::Spawn(stage) => PipelineStepView::Spawn(stage@),
            PipelineStep::Wait(k) => PipelineStepView::Wait(k as int),
            PipelineStep::Finished(ok) => PipelineStepView::Finished(ok),
        }
    }
}

/// What a [`PipelineRun`] holds: the processes of the pipeline, how many of
/// them were started, whether one could not be started, for how many the
/// caller has waited, and how the last of these ended.
pub struct PipelineView {
    pub stages: Seq<StageView>,
    pub started: int,
    pub spawn_failed: bool,
    pub waited: int,
    pub last_ok: bool,
}

impl PipelineView {
    /// What holds of every run: the processes waited for are among those
    /// started, those among the processes of the pipeline, and none was
    /// waited for while another was still to be started.
    pub open spec fn wf(self) -> bool {
        &&& 0 <= self.waited <= self.started <= self.stages.len()
        &&& self.waited > 0 ==> self.spawn_failed || self.started == self.stages.len()
    }

    /// Whether a process is still to be started: none has failed to start,
    /// and not all are started.
    pub open spec fn spawning(self) -> bool {
        !self.spawn_failed && 0 <= self.started < self.stages.len()
    }

    /// Whether a started process is still to be waited for. No process is
    /// waited for while one is still to be started.
    pub open spec fn waiting(self) -> bool {
        !self.spawning() && 0 <= self.waited < self.started
    }

    /// Whether the pipeline succeeded: every process was started, and the
    /// last of them ended well.
    pub open spec fn succeeded(self) -> bool {
        !self.spawn_failed && (self.started <= 0 || self.last_ok)
    }

    /// What is to be done next: first every process is started, in order,
    /// up to one that fails to start; then each started process is waited
    /// for, in the order of their start.
    pub open spec fn step(self) -> PipelineStepView {
        if self.spawning() {
            PipelineStepView::Spawn(self.stages[self.started])
        } else if self.waiting() {
            PipelineStepView::Wait(self.waited)
        } else {
            PipelineStepView::Finished(self.succeeded())
        }
    }

    /// The run after the caller tried to start the process that was asked
    /// for.
    pub open spec fn spawned(self, ok: bool) -> PipelineView {
        if !self.spawning() {
            self
        } else if ok {
            PipelineView { started: self.started + 1, ..self }
        } else {
            PipelineView { spawn_failed: true, ..self }
        }
    }

    /// The run after the process that was waited for ended.
    pub open spec fn exited(self, ok: bool) -> PipelineView {
        if self.waiting() {
            PipelineView { waited: self.waited + 1, last_ok: ok, ..self }
        } else {
            self
        }
    }
}

/// Carries out a pipeline step by step: says which process to start and
/// which to wait for, and takes back what came of it.
pub struct PipelineRun {
    stages: Vec<Stage>,
    started: usize,
    spawn_failed: bool,
    waited: usize,
    last_ok: bool,
}

impl View for PipelineRun {
    type V = PipelineView;

    closed spec fn view(&self) -> PipelineView {
        PipelineView {
            stages: stages_view(self.stages@),
            started: self.started as int,
            spawn_failed: self.spawn_failed,
            waited: self.waited as int,
            last_ok: self.last_ok,
        }
    }
}

impl PipelineRun {
    /// A run of the processes `stages`, of which none is started yet.
    pub fn new(stages: Vec<Stage>) -> (r: PipelineRun)
        ensures
            r@ == (PipelineView {
                stages: stages_view(stages@),
                started: 0,
                spawn_failed: false,
                waited: 0,
                last_ok: true,
            }),
            r@.wf(),
    {
        PipelineRun { stages, started: 0, spawn_failed: false, waited: 0, last_ok: true }
    }

    /// What the caller does next.
    pub fn next(&self) -> (step: PipelineStep)
        ensures
            step@ == self@.step(),
    {
        if !self.spawn_failed && self.started < self.stages.len() {
            let stage = &self.stages[self.started];
            assert(self@.stages[self.started as int] == stage@);
            let args = copy_strings_from(&stage.args, 0);
            assert(args.deep_view() =~= stage.args.deep_view());
            PipelineStep::Spawn(
                Stage {
                    program: stage.program.clone(),
                    args,
                    stdin_piped: stage.stdin_piped,
                    stdout_piped: stage.stdout_piped,
                },
            )
        } else if self.waited < self.started {
            PipelineStep::Wait(self.waited)
        } else {
            PipelineStep::Finished(!self.spawn_failed && (self.started == 0 || self.last_ok))
        }
    }

    /// Takes note of whether the process asked for was started. Where none
    /// was asked for nothing changes.
    pub fn spawned(&mut self, ok: bool)
        ensures
            final(self)@ == old(self)@.spawned(ok),
    {
        if !self.spawn_failed && self.started < self.stages.len() {
            if ok {
                self.started = self.started + 1;
            } else {
                self.spawn_failed = true;
            }
        }
    }

    /// Takes note of how the process waited for ended. Where none was
    /// waited for nothing changes.
    pub fn exited(&mut self, ok: bool)
        ensures
            final(self)@ == old(self)@.exited(ok),
    {
        if !(!self.spawn_failed && self.started < self.stages.len()) && self.waited
            < self.started {
            self.waited = self.waited + 1;
            self.last_ok = ok;
        }
    }
}

/// Every process is started before any is waited for; after a process that
/// fails to start no other is started; and the run ends only when every
/// started process was waited for.
pub proof fn lemma_pipeline_order(p: PipelineView, ok: bool)
    requires
        p.wf(),
    ensures
        p.step() is Wait ==> p.spawn_failed || p.started == p.stages.len(),
        p.step() is Spawn ==> p.waited == 0,
        p.step() is Spawn ==> !(p.spawned(false).step() is Spawn),
        p.step() is Finished ==> p.waited == p.started,
        p.step() is Finished ==> (p.step()->Finished_0 <==> !p.spawn_failed && (p.started == 0
            || p.last_ok)),
        p.spawned(ok).wf(),
        p.exited(ok).wf(),
{
}

} // verus!
