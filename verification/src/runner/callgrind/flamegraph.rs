//! The paths of the flamegraph files of a benchmark: their names by event kind, baseline and
//! kind (regular, old, base, differential), and which existing files belong to a path.
use vstd::prelude::*;

use crate::api::EventKind;
use crate::paths::{join, path_join};
use crate::runner::tool::{BaselineKind, ToolOutputPath, ToolOutputPathKind};
use crate::text::{
    append_chars, append_str, ends_with_chars, find_char, from_chars, owned, split_char, split_char_exec,
    split_once, split_once_exec, strip_prefix, strip_prefix_exec, to_chars,
};

verus! {

/// The kind of a flamegraph file
#[derive(Debug, Clone, PartialEq, Eq)]
pub enum OutputPathKind {
    /// The flamegraph of this run
    Regular,
    /// The flamegraph of the previous run
    Old,
    /// The flamegraph of a named baseline
    Base(String),
    /// The differential flamegraph of this run and the previous one
    DiffOld,
    /// The differential flamegraph of this run and a named baseline
    DiffBase(String),
    /// The differential flamegraph of two named baselines
    DiffBases(String, String),
}

/// The view of a kind of a flamegraph file.
pub enum KindView {
    Regular,
    Old,
    Base(Seq<char>),
    DiffOld,
    DiffBase(Seq<char>),
    DiffBases(Seq<char>, Seq<char>),
}

/// The view of a kind of a flamegraph file.
pub open spec fn kind_view(k: OutputPathKind) -> KindView {
    match k {
        OutputPathKind::Regular => KindView::Regular,
        OutputPathKind::Old => KindView::Old,
        OutputPathKind::Base(n) => KindView::Base(n@),
        OutputPathKind::DiffOld => KindView::DiffOld,
        OutputPathKind::DiffBase(n) => KindView::DiffBase(n@),
        OutputPathKind::DiffBases(n, b) => KindView::DiffBases(n@, b@),
    }
}

/// The view of a baseline: `None` for the previous run, else the name.
pub open spec fn baseline_view(b: BaselineKind) -> Option<Seq<char>> {
    match b {
        BaselineKind::Old => None,
        BaselineKind::Name(n) => Some(n@),
    }
}

/// The path of a flamegraph file
#[derive(Debug, Clone)]
pub struct OutputPath {
    pub baseline_kind: BaselineKind,
    pub dir: String,
    pub event_kind: EventKind,
    pub kind: OutputPathKind,
    pub modifiers: Vec<String>,
    pub name: String,
}

/// The extension of a flamegraph file of the event kind named `event` and the kind `k`.
pub open spec fn extension_spec(event: Seq<char>, k: KindView) -> Seq<char> {
    match k {
        KindView::Regular => event + ".flamegraph.svg"@,
        KindView::Old => event + ".flamegraph.old.svg"@,
        KindView::Base(n) => event + ".flamegraph.base@"@ + n + ".svg"@,
        KindView::DiffOld => event + ".flamegraph.diff.old.svg"@,
        KindView::DiffBase(n) => event + ".flamegraph.diff.base@"@ + n + ".svg"@,
        KindView::DiffBases(n, b) => event + ".flamegraph.base@"@ + n + ".diff.base@"@ + b + ".svg"@,
    }
}

/// The texts joined with `.`.
pub open spec fn join_dots(parts: Seq<Seq<char>>) -> Seq<char>
    decreases parts.len(),
{
    if parts.len() == 0 {
        Seq::empty()
    } else if parts.len() == 1 {
        parts[0]
    } else {
        join_dots(parts.drop_last()).push('.') + parts.last()
    }
}

/// The segments from the first that equals `w` on; empty if none does.
pub open spec fn skip_until(segs: Seq<Seq<char>>, w: Seq<char>) -> Seq<Seq<char>>
    decreases segs.len(),
{
    if segs.len() == 0 || segs[0] == w {
        segs
    } else {
        skip_until(segs.drop_first(), w)
    }
}

/// The first (up to) three of the segments.
pub open spec fn first_three(segs: Seq<Seq<char>>) -> Seq<Seq<char>> {
    if segs.len() <= 3 {
        segs
    } else {
        segs.take(3)
    }
}

/// The strings as texts.
pub open spec fn texts(v: Seq<String>) -> Seq<Seq<char>> {
    v.map_values(|s: String| s@)
}

impl OutputPath {
    /// The extension of the file name: the event kind, `flamegraph`, the kind and `svg`.
    pub open spec fn extension_view(&self) -> Seq<char> {
        extension_spec(self.event_kind.spec_name(), kind_view(self.kind))
    }

    /// The file name: `callgrind.`, the name of the benchmark, the modifiers and the extension,
    /// joined with `.`.
    pub open spec fn file_name_view(&self) -> Seq<char> {
        if self.modifiers@.len() == 0 {
            "callgrind."@ + self.name@ + "."@ + self.extension_view()
        } else {
            "callgrind."@ + self.name@ + "."@ + join_dots(texts(self.modifiers@)) + "."@ + self.extension_view()
        }
    }

    /// Whether a file name belongs to this path: see [`OutputPath::is_real_path`].
    pub open spec fn real_path_spec(&self, file_name: Seq<char>, ignore_event_kind: bool) -> bool {
        match strip_prefix(file_name, "callgrind."@ + self.name@ + "."@) {
            Some(suffix) => {
                let to_match = if ignore_event_kind {
                    match split_once(self.extension_view(), '.') {
                        Some(parts) => parts.1,
                        None => self.extension_view(),
                    }
                } else {
                    self.extension_view()
                };
                to_match.is_suffix_of(suffix)
            },
            None => false,
        }
    }

    /// The two tests of a file name for a differential flamegraph of this path's baseline: see
    /// [`OutputPath::diff_file_matches`].
    pub open spec fn diff_match_spec(&self, file_name: Seq<char>) -> (bool, bool) {
        match strip_prefix(file_name, "callgrind."@ + self.name@) {
            Some(suffix) => (
                diff_extension(baseline_view(self.baseline_kind)).is_suffix_of(suffix),
                match baseline_view(self.baseline_kind) {
                    Some(n) => first_three(skip_until(split_char(suffix, '.'), "flamegraph"@)) == seq![
                        "flamegraph"@,
                        "base@"@ + n,
                        "diff"@,
                    ],
                    None => false,
                },
            ),
            None => (false, false),
        }
    }

    /// The path of a flamegraph of the event kind for the output of a tool, without modifiers.
    pub fn new(tool_output_path: &ToolOutputPath, event_kind: EventKind) -> (r: OutputPath)
        ensures
            kind_view(r.kind) == match tool_output_path.kind {
                ToolOutputPathKind::Out | ToolOutputPathKind::Log => KindView::Regular,
                ToolOutputPathKind::OldOut | ToolOutputPathKind::OldLog => KindView::Old,
                ToolOutputPathKind::BaseLog(n) | ToolOutputPathKind::Base(n) => KindView::Base(n@),
            },
            r.event_kind == event_kind,
            baseline_view(r.baseline_kind) == baseline_view(tool_output_path.baseline_kind),
            r.dir@ == tool_output_path.dir@,
            r.name@ == tool_output_path.name@,
            r.modifiers@.len() == 0,
    {
        OutputPath {
            kind: match &tool_output_path.kind {
                ToolOutputPathKind::Out | ToolOutputPathKind::Log => OutputPathKind::Regular,
                ToolOutputPathKind::OldOut | ToolOutputPathKind::OldLog => OutputPathKind::Old,
                ToolOutputPathKind::BaseLog(name) | ToolOutputPathKind::Base(name) => OutputPathKind::Base(
                    owned(name.as_str()),
                ),
            },
            event_kind,
            baseline_kind: copy_baseline(&tool_output_path.baseline_kind),
            dir: owned(tool_output_path.dir.as_str()),
            name: owned(tool_output_path.name.as_str()),
            modifiers: Vec::new(),
        }
    }

    /// A copy of this path with another kind.
    fn with_kind(&self, kind: OutputPathKind) -> (r: OutputPath)
        ensures
            r.kind == kind,
            r.event_kind == self.event_kind,
            baseline_view(r.baseline_kind) == baseline_view(self.baseline_kind),
            r.dir@ == self.dir@,
            r.name@ == self.name@,
            texts(r.modifiers@) == texts(self.modifiers@),
    {
        let mut modifiers: Vec<String> = Vec::new();
        let mut i: usize = 0;
        while i < self.modifiers.len()
            invariant
                0 <= i <= self.modifiers.len(),
                modifiers.len() == i,
                texts(modifiers@) == texts(self.modifiers@).take(i as int),
            decreases self.modifiers.len() - i,
        {
            let ghost before = modifiers@;
            modifiers.push(owned(self.modifiers[i].as_str()));
            assert forall|j: int| 0 <= j < i + 1 implies texts(modifiers@)[j] == texts(self.modifiers@).take(i + 1)[j] by {
                if j < i {
                    assert(modifiers@[j] == before[j]);
                    assert(texts(before)[j] == texts(self.modifiers@).take(i as int)[j]);
                }
            }
            assert(texts(modifiers@) =~= texts(self.modifiers@).take(i + 1));
            i += 1;
        }
        assert(texts(self.modifiers@).take(self.modifiers.len() as int) =~= texts(self.modifiers@));
        OutputPath {
            kind,
            event_kind: self.event_kind,
            baseline_kind: copy_baseline(&self.baseline_kind),
            dir: owned(self.dir.as_str()),
            name: owned(self.name.as_str()),
            modifiers,
        }
    }

    /// The differential path of a regular path, as a value: the kind changed, all else kept.
    pub open spec fn to_diff_path_spec(&self) -> OutputPath {
        OutputPath {
            kind: match (self.kind, self.baseline_kind) {
                (OutputPathKind::Regular, BaselineKind::Old) => OutputPathKind::DiffOld,
                (OutputPathKind::Regular, BaselineKind::Name(n)) => OutputPathKind::DiffBase(n),
                (OutputPathKind::Base(n), BaselineKind::Name(b)) => OutputPathKind::DiffBases(n, b),
                (k, _) => k,
            },
            ..*self
        }
    }

    /// The path of the differential flamegraph of this one: against the previous run or the
    /// named baseline; a differential path stays as it is.
    pub fn to_diff_path(&self) -> (r: OutputPath)
        requires
            !(self.kind is Old),
            self.kind is Base ==> self.baseline_kind is Name,
        ensures
            kind_view(r.kind) == match (kind_view(self.kind), baseline_view(self.baseline_kind)) {
                (KindView::Regular, None) => KindView::DiffOld,
                (KindView::Regular, Some(n)) => KindView::DiffBase(n),
                (KindView::Base(n), Some(b)) => KindView::DiffBases(n, b),
                (k, _) => k,
            },
            r.event_kind == self.event_kind,
            baseline_view(r.baseline_kind) == baseline_view(self.baseline_kind),
            r.dir@ == self.dir@,
            r.name@ == self.name@,
            texts(r.modifiers@) == texts(self.modifiers@),
            r.file_name_view() == self.to_diff_path_spec().file_name_view(),
            forall|f: Seq<char>| #[trigger] r.diff_match_spec(f) == self.to_diff_path_spec().diff_match_spec(f),
    {
        let kind = match (&self.kind, &self.baseline_kind) {
            (OutputPathKind::Regular, BaselineKind::Old) => OutputPathKind::DiffOld,
            (OutputPathKind::Regular, BaselineKind::Name(name)) => OutputPathKind::DiffBase(owned(name.as_str())),
            (OutputPathKind::Base(name), BaselineKind::Name(other)) => OutputPathKind::DiffBases(
                owned(name.as_str()),
                owned(other.as_str()),
            ),
            (OutputPathKind::DiffOld, _) => OutputPathKind::DiffOld,
            (OutputPathKind::DiffBase(n), _) => OutputPathKind::DiffBase(owned(n.as_str())),
            (OutputPathKind::DiffBases(n, b), _) => OutputPathKind::DiffBases(owned(n.as_str()), owned(b.as_str())),
            (_, _) => OutputPathKind::Regular,
        };
        let r = self.with_kind(kind);
        assert(kind_view(r.kind) == kind_view(self.to_diff_path_spec().kind));
        assert(r.extension_view() == self.to_diff_path_spec().extension_view());
        r
    }

    /// The path of the flamegraph of the baseline: of the previous run, or of the named
    /// baseline.
    pub fn to_base_path(&self) -> (r: OutputPath)
        ensures
            kind_view(r.kind) == match baseline_view(self.baseline_kind) {
                None => KindView::Old,
                Some(n) => KindView::Base(n),
            },
            r.event_kind == self.event_kind,
            baseline_view(r.baseline_kind) == baseline_view(self.baseline_kind),
            r.dir@ == self.dir@,
            r.name@ == self.name@,
            texts(r.modifiers@) == texts(self.modifiers@),
    {
        let kind = match &self.baseline_kind {
            BaselineKind::Old => OutputPathKind::Old,
            BaselineKind::Name(name) => OutputPathKind::Base(owned(name.as_str())),
        };
        self.with_kind(kind)
    }

    /// The extension of the file name: the event kind, `flamegraph`, the kind and `svg`
    pub fn extension(&self) -> (r: String)
        ensures
            r@ == self.extension_view(),
    {
        let name = self.event_kind.to_name();
        let mut c = to_chars(name.as_str());
        match &self.kind {
            OutputPathKind::Regular => append_str(&mut c, ".flamegraph.svg"),
            OutputPathKind::Old => append_str(&mut c, ".flamegraph.old.svg"),
            OutputPathKind::Base(n) => {
                append_str(&mut c, ".flamegraph.base@");
                append_str(&mut c, n.as_str());
                append_str(&mut c, ".svg");
            },
            OutputPathKind::DiffOld => append_str(&mut c, ".flamegraph.diff.old.svg"),
            OutputPathKind::DiffBase(n) => {
                append_str(&mut c, ".flamegraph.diff.base@");
                append_str(&mut c, n.as_str());
                append_str(&mut c, ".svg");
            },
            OutputPathKind::DiffBases(n, b) => {
                append_str(&mut c, ".flamegraph.base@");
                append_str(&mut c, n.as_str());
                append_str(&mut c, ".diff.base@");
                append_str(&mut c, b.as_str());
                append_str(&mut c, ".svg");
            },
        }
        assert(c@ =~= self.extension_view());
        from_chars(&c)
    }

    /// Set the modifiers of the file name
    pub fn set_modifiers(&mut self, modifiers: Vec<String>)
        ensures
            final(self).modifiers == modifiers,
            final(self).kind == old(self).kind,
            final(self).event_kind == old(self).event_kind,
            final(self).baseline_kind == old(self).baseline_kind,
            final(self).dir == old(self).dir,
            final(self).name == old(self).name,
    {
        self.modifiers = modifiers;
    }

    /// Set the event kind
    pub fn set_event_kind(&mut self, event_kind: EventKind)
        ensures
            final(self).event_kind == event_kind,
            final(self).kind == old(self).kind,
            final(self).modifiers == old(self).modifiers,
            final(self).baseline_kind == old(self).baseline_kind,
            final(self).dir == old(self).dir,
            final(self).name == old(self).name,
    {
        self.event_kind = event_kind;
    }

    /// The file name: `callgrind.`, the name of the benchmark, the modifiers and the extension,
    /// joined with `.`
    pub fn file_name(&self) -> (r: String)
        ensures
            r@ == self.file_name_view(),
    {
        let mut c = to_chars("callgrind.");
        append_str(&mut c, self.name.as_str());
        append_str(&mut c, ".");
        if self.modifiers.len() > 0 {
            let ghost ms = texts(self.modifiers@);
            let ghost head = c@;
            append_str(&mut c, self.modifiers[0].as_str());
            let mut i: usize = 1;
            assert(ms.take(1) =~= seq![ms[0]]);
            assert(c@ == head + join_dots(ms.take(1)));
            while i < self.modifiers.len()
                invariant
                    1 <= i <= self.modifiers.len(),
                    ms == texts(self.modifiers@),
                    c@ == head + join_dots(ms.take(i as int)),
                decreases self.modifiers.len() - i,
            {
                c.push('.');
                append_str(&mut c, self.modifiers[i].as_str());
                assert(ms.take(i + 1).drop_last() =~= ms.take(i as int));
                assert(c@ =~= head + join_dots(ms.take(i + 1)));
                i += 1;
            }
            assert(ms.take(self.modifiers.len() as int) =~= ms);
            append_str(&mut c, ".");
        }
        let ext = self.extension();
        append_str(&mut c, ext.as_str());
        assert(c@ =~= self.file_name_view());
        from_chars(&c)
    }

    /// The path of the file: the file name in the directory
    pub fn to_path(&self) -> (r: String)
        ensures
            r@ == path_join(self.dir@, self.file_name_view()),
    {
        let f = self.file_name();
        join(self.dir.as_str(), f.as_str())
    }

    /// Whether a file of the directory with the name `file_name` is a flamegraph of this path:
    /// it starts with `callgrind.name.` and ends with the extension (without the event kind
    /// if `ignore_event_kind`).
    pub fn is_real_path(&self, file_name: &str, ignore_event_kind: bool) -> (r: bool)
        ensures
            r == self.real_path_spec(file_name@, ignore_event_kind),
    {
        let ext = self.extension();
        let e = to_chars(ext.as_str());
        let to_match = if ignore_event_kind {
            match split_once_exec(&e, '.') {
                Some((_, rest)) => rest,
                None => e,
            }
        } else {
            e
        };
        let mut prefix = to_chars("callgrind.");
        append_str(&mut prefix, self.name.as_str());
        append_str(&mut prefix, ".");
        let f = to_chars(file_name);
        match strip_prefix_chars(&f, &prefix) {
            Some(suffix) => ends_with_chars(&suffix, &to_match),
            None => false,
        }
    }

    /// Whether a file of the directory with the name `file_name` is a differential flamegraph
    /// of this path's baseline, by the two tests that each lead to its removal: its name after
    /// `callgrind.name` ends with `diff.old.svg` (or `diff.base@baseline.svg`), and, for a named
    /// baseline, its segments from `flamegraph` on start with `flamegraph`, `base@baseline`,
    /// `diff`.
    pub fn diff_file_matches(&self, file_name: &str) -> (r: (bool, bool))
        ensures
            r == self.diff_match_spec(file_name@),
    {
        let ext = match &self.baseline_kind {
            BaselineKind::Old => to_chars("diff.old.svg"),
            BaselineKind::Name(n) => {
                let mut e = to_chars("diff.base@");
                append_str(&mut e, n.as_str());
                append_str(&mut e, ".svg");
                e
            },
        };
        assert(ext@ =~= diff_extension(baseline_view(self.baseline_kind)));
        let mut prefix = to_chars("callgrind.");
        append_str(&mut prefix, self.name.as_str());
        let f = to_chars(file_name);
        match strip_prefix_chars(&f, &prefix) {
            Some(suffix) => {
                let ends = ends_with_chars(&suffix, &ext);
                let segments = match &self.baseline_kind {
                    BaselineKind::Name(n) => {
                        let segs = split_char_exec(&suffix, '.');
                        let mut base = to_chars("base@");
                        append_str(&mut base, n.as_str());
                        segments_match(&segs, &base)
                    },
                    BaselineKind::Old => false,
                };
                (ends, segments)
            },
            None => (false, false),
        }
    }
}

/// The end of the name of a differential flamegraph against the previous run or a named
/// baseline.
pub open spec fn diff_extension(baseline: Option<Seq<char>>) -> Seq<char> {
    match baseline {
        None => "diff.old.svg"@,
        Some(n) => "diff.base@"@ + n + ".svg"@,
    }
}

/// `v` without the prefix `p`, if it starts with it.
fn strip_prefix_chars(v: &Vec<char>, p: &Vec<char>) -> (r: Option<Vec<char>>)
    ensures
        r matches Some(t) ==> strip_prefix(v@, p@) == Some(t@),
        r is None ==> strip_prefix(v@, p@) is None,
{
    if crate::text::starts_with_chars(v, p) {
        let t = crate::text::sub_chars(v, p.len(), v.len());
        assert(t@ =~= v@.skip(p@.len() as int));
        Some(t)
    } else {
        None
    }
}

/// Whether the segments from `flamegraph` on start with `flamegraph`, `base`, `diff`.
fn segments_match(segs: &Vec<Vec<char>>, base: &Vec<char>) -> (r: bool)
    ensures
        r == (first_three(skip_until(segs@.map_values(|x: Vec<char>| x@), "flamegraph"@)) == seq![
            "flamegraph"@,
            base@,
            "diff"@,
        ]),
{
    let ghost sv = segs@.map_values(|x: Vec<char>| x@);
    let mut i: usize = 0;
    let flame = to_chars("flamegraph");
    let diff = to_chars("diff");
    assert(sv.skip(0) =~= sv);
    while i < segs.len() && !crate::text::chars_eq(&segs[i], &flame)
        invariant
            0 <= i <= segs.len(),
            sv == segs@.map_values(|x: Vec<char>| x@),
            flame@ == "flamegraph"@,
            skip_until(sv.skip(i as int), "flamegraph"@) == skip_until(sv, "flamegraph"@),
        decreases segs.len() - i,
    {
        assert(sv.skip(i as int)[0] == segs@[i as int]@);
        assert(sv.skip(i as int).drop_first() =~= sv.skip(i + 1));
        i += 1;
    }
    let ghost rest = sv.skip(i as int);
    if i < segs.len() {
        assert(rest[0] == segs@[i as int]@);
    }
    assert(skip_until(rest, "flamegraph"@) == rest);
    let n = segs.len() - i;
    let ghost target = seq!["flamegraph"@, base@, "diff"@];
    if n < 3 {
        assert(first_three(rest).len() != target.len());
        return false;
    }
    assert(first_three(rest) =~= seq![rest[0], rest[1], rest[2]]);
    assert(rest[1] == segs@[i + 1]@);
    assert(rest[2] == segs@[i + 2]@);
    let r = crate::text::chars_eq(&segs[i + 1], base) && crate::text::chars_eq(&segs[i + 2], &diff);
    proof {
        if r {
            assert(first_three(rest) =~= target);
        } else {
            if first_three(rest) == target {
                assert(first_three(rest)[1] == target[1]);
                assert(first_three(rest)[2] == target[2]);
            }
        }
    }
    r
}

/// The generator of flamegraphs when run without `--load-baseline` or `--save-baseline`
#[derive(Debug)]
pub struct BaselineFlamegraphGenerator {
    /// The baseline to compare with
    pub baseline_kind: BaselineKind,
}

/// The generator of flamegraphs when run with `--load-baseline`
#[derive(Debug)]
pub struct LoadBaselineFlamegraphGenerator {
    /// The baseline to compare with
    pub baseline: String,
    /// The loaded baseline
    pub loaded_baseline: String,
}

/// The generator of flamegraphs when run with `--save-baseline`
#[derive(Debug)]
pub struct SaveBaselineFlamegraphGenerator {
    /// The baseline to save to
    pub baseline: String,
}

/// A copy of a baseline kind.
fn copy_baseline(b: &BaselineKind) -> (r: BaselineKind)
    ensures
        baseline_view(r) == baseline_view(*b),
{
    match b {
        BaselineKind::Old => BaselineKind::Old,
        BaselineKind::Name(n) => BaselineKind::Name(owned(n.as_str())),
    }
}

/// `a` is stripped from the front of `a + b`, leaving `b`.
proof fn lemma_strip_concat(a: Seq<char>, b: Seq<char>)
    ensures
        strip_prefix(a + b, a) == Some(b),
{
    assert((a + b).subrange(0, a.len() as int) =~= a);
    assert((a + b).skip(a.len() as int) =~= b);
}

/// `b` ends `a + b`, and so does each end of `b`.
proof fn lemma_suffix_concat(a: Seq<char>, b: Seq<char>, c: Seq<char>)
    requires
        c.is_suffix_of(b),
    ensures
        c.is_suffix_of(a + b),
{
    assert((a + b).subrange((a + b).len() - c.len(), (a + b).len() as int) =~= b.subrange(
        b.len() - c.len(),
        b.len() as int,
    ));
}

/// A sequence without its first elements ends it.
proof fn lemma_skip_suffix(s: Seq<char>, i: int)
    requires
        0 <= i <= s.len(),
    ensures
        s.skip(i).is_suffix_of(s),
{
    assert(s.subrange(s.len() - s.skip(i).len(), s.len() as int) =~= s.skip(i));
}

/// The file a path names belongs to the path: the search of the directory for its files finds
/// it, with or without regard to the event kind.
pub proof fn lemma_file_name_is_real_path(p: OutputPath, ignore_event_kind: bool)
    ensures
        p.real_path_spec(p.file_name_view(), ignore_event_kind),
{
    let prefix = "callgrind."@ + p.name@ + "."@;
    let f = p.file_name_view();
    let ext = p.extension_view();
    let middle = if p.modifiers@.len() == 0 {
        Seq::<char>::empty()
    } else {
        join_dots(texts(p.modifiers@)) + "."@
    };
    assert(f =~= prefix + (middle + ext));
    lemma_strip_concat(prefix, middle + ext);
    lemma_skip_suffix(ext, 0);
    assert(ext.skip(0) =~= ext);
    lemma_suffix_concat(middle, ext, ext);
    if ignore_event_kind {
        match split_once(ext, '.') {
            Some(parts) => {
                let i = find_char(ext, '.').unwrap();
                crate::text::lemma_find_char_bounds(ext, '.');
                lemma_skip_suffix(ext, i + 1);
                lemma_suffix_concat(middle, ext, parts.1);
            },
            None => {},
        }
    }
}

/// The differential flamegraph that the differential path of a regular path names ends as the
/// cleanup of differential flamegraphs of its baseline expects: the cleanup removes it.
#[verifier::spinoff_prover]
#[verifier::rlimit(40)]
pub proof fn lemma_diff_file_is_cleared(p: OutputPath)
    requires
        p.kind is Regular,
    ensures
        p.to_diff_path_spec().diff_match_spec(p.to_diff_path_spec().file_name_view()).0,
{
    let q = p.to_diff_path_spec();
    let prefix = "callgrind."@ + q.name@;
    let f = q.file_name_view();
    let ext = q.extension_view();
    let middle = if q.modifiers@.len() == 0 {
        "."@
    } else {
        "."@ + join_dots(texts(q.modifiers@)) + "."@
    };
    assert(f =~= prefix + (middle + ext));
    assert(prefix.is_prefix_of(f)) by {
        assert(f.subrange(0, prefix.len() as int) =~= prefix);
    }
    let suffix = f.skip(prefix.len() as int);
    assert(suffix =~= middle + ext);
    assert(strip_prefix(f, prefix) == Some(suffix));
    let d = diff_extension(baseline_view(q.baseline_kind));
    let event = q.event_kind.spec_name();
    reveal_strlit("diff.old.svg");
    reveal_strlit(".flamegraph.diff.old.svg");
    reveal_strlit("diff.base@");
    reveal_strlit(".flamegraph.diff.base@");
    reveal_strlit(".svg");
    match baseline_view(q.baseline_kind) {
        None => {
            assert(ext =~= event + ".flamegraph.diff.old.svg"@);
            assert(suffix.subrange(suffix.len() - d.len(), suffix.len() as int) =~= d);
        },
        Some(n) => {
            assert(ext =~= event + ".flamegraph.diff.base@"@ + n + ".svg"@);
            assert(suffix.subrange(suffix.len() - d.len(), suffix.len() as int) =~= d);
        },
    }
}

} // verus!
