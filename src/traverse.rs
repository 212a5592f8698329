//! The filter pipeline: which lines each visited entry produces, for one
//! walk and for the walks of all roots in order.
use crate::config::{pattern_views, Config, ConfigView, EntryType, Pattern, regex_matches};
use vstd::prelude::*;

verus! {

/// One entry that a walk visited, with the answers of the metadata queries
/// on its path.
pub struct Entry {
    /// The full path, as the walk produced it from its root.
    pub path: String,
    /// The base name; `None` when it is not valid text.
    pub file_name: Option<String>,
    /// The path resolves to a directory (symbolic links followed).
    pub is_dir: bool,
    /// The path resolves to a regular file (symbolic links followed).
    pub is_file: bool,
    /// The path itself is a symbolic link.
    pub is_symlink: bool,
}

/// One step of a walk: an entry, or the message of an error on the way.
pub enum WalkItem {
    Found(Entry),
    Failed(String),
}

/// One line of output: a matching path for the output stream, or an error
/// message for the error stream.
#[derive(Debug, PartialEq, Eq)]
pub enum Line {
    Path(String),
    Problem(String),
}

/// A line of output as plain text.
pub enum LineView {
    Path(Seq<char>),
    Problem(Seq<char>),
}

impl View for Line {
    type V = LineView;

    open spec fn view(&self) -> LineView {
        match self {
            Line::Path(p) => LineView::Path(p@),
            Line::Problem(m) => LineView::Problem(m@),
        }
    }
}

pub open spec fn lines_view(lines: Seq<Line>) -> Seq<LineView> {
    lines.map_values(|l: Line| l@)
}

pub open spec fn walk_views(walks: Seq<Vec<WalkItem>>) -> Seq<Seq<WalkItem>> {
    walks.map_values(|w: Vec<WalkItem>| w@)
}

/// Whether an entry is of the kind `t`. A link to a regular file is no
/// file, but a link to a directory is a directory.
pub open spec fn type_holds(e: Entry, t: EntryType) -> bool {
    match t {
        EntryType::Dir => e.is_dir,
        EntryType::File => e.is_file && !e.is_symlink,
        EntryType::Link => e.is_symlink,
    }
}

/// Whether a base name passes the name filter: no patterns, or one of them
/// matches somewhere in the name.
pub open spec fn name_accepted(names: Seq<Seq<char>>, name: Seq<char>) -> bool {
    names.len() == 0 || exists|i: int| 0 <= i < names.len() && regex_matches(#[trigger] names[i], name)
}

/// How many of the kind filters, counted with repeats, the entry meets.
pub open spec fn type_copies(types: Seq<EntryType>, e: Entry) -> nat
    decreases types.len(),
{
    if types.len() == 0 {
        0
    } else {
        type_copies(types.drop_last(), e) + if type_holds(e, types.last()) {
            1nat
        } else {
            0nat
        }
    }
}

/// How many times the kind filters print an entry: once when there are
/// none, else once per filter met.
pub open spec fn kind_count(types: Seq<EntryType>, e: Entry) -> nat {
    if types.len() == 0 {
        1
    } else {
        type_copies(types, e)
    }
}

/// How many times the path of an entry is printed.
pub open spec fn emit_count(cfg: ConfigView, e: Entry) -> nat {
    match e.file_name {
        None => 0,
        Some(n) => if name_accepted(cfg.names, n@) {
            kind_count(cfg.types, e)
        } else {
            0
        },
    }
}

/// The lines that one step of a walk produces.
pub open spec fn item_lines(cfg: ConfigView, item: WalkItem) -> Seq<LineView> {
    match item {
        WalkItem::Failed(m) => seq![LineView::Problem(m@)],
        WalkItem::Found(e) => Seq::new(emit_count(cfg, e), |_i: int| LineView::Path(e.path@)),
    }
}

/// The lines of a whole walk, step by step in order.
pub open spec fn walk_lines(cfg: ConfigView, walk: Seq<WalkItem>) -> Seq<LineView>
    decreases walk.len(),
{
    if walk.len() == 0 {
        seq![]
    } else {
        walk_lines(cfg, walk.drop_last()) + item_lines(cfg, walk.last())
    }
}

/// The lines of the walks of all roots, root by root in order.
pub open spec fn run_lines(cfg: ConfigView, walks: Seq<Seq<WalkItem>>) -> Seq<LineView>
    decreases walks.len(),
{
    if walks.len() == 0 {
        seq![]
    } else {
        run_lines(cfg, walks.drop_last()) + walk_lines(cfg, walks.last())
    }
}

/// Whether the entry is of the kind `entry_type`.
pub fn filter_types(entry: &Entry, entry_type: &EntryType) -> (r: bool)
    ensures
        r == type_holds(*entry, *entry_type),
{
    match entry_type {
        EntryType::Dir => entry.is_dir,
        EntryType::File => entry.is_file && !entry.is_symlink,
        EntryType::Link => entry.is_symlink,
    }
}

/// Whether `file_name` passes the name filter `names`.
pub fn name_passes(names: &Vec<Pattern>, file_name: &str) -> (r: bool)
    ensures
        r == name_accepted(pattern_views(names@), file_name@),
{
    let ghost ns = pattern_views(names@);
    if names.len() == 0 {
        return true;
    }
    let mut i: usize = 0;
    while i < names.len()
        invariant
            ns == pattern_views(names@),
            i <= names.len(),
            forall|j: int| 0 <= j < i ==> !regex_matches(#[trigger] ns[j], file_name@),
        decreases names.len() - i,
    {
        if names[i].regex_is_match(file_name) {
            assert(regex_matches(ns[i as int], file_name@));
            return true;
        }
        i = i + 1;
    }
    false
}

/// The lines of an entry whose name passed the name filter: its path once
/// when there are no kind filters, else once per filter in `entry_types`
/// (repeats counted) that it meets.
pub fn entry_lines(entry_types: &Vec<EntryType>, entry: &Entry) -> (r: Vec<Line>)
    ensures
        lines_view(r@) == Seq::new(kind_count(entry_types@, *entry), |_i: int| LineView::Path(entry.path@)),
{
    let mut out: Vec<Line> = Vec::new();
    if entry_types.len() == 0 {
        out.push(Line::Path(entry.path.clone()));
    } else {
        let mut k: usize = 0;
        while k < entry_types.len()
            invariant
                k <= entry_types.len(),
                out@.len() == type_copies(entry_types@.subrange(0, k as int), *entry),
                forall|j: int|
                    0 <= j < out@.len() ==> #[trigger] out@[j]@ == LineView::Path(entry.path@),
            decreases entry_types.len() - k,
        {
            assert(entry_types@.subrange(0, k + 1).drop_last() =~= entry_types@.subrange(0, k as int));
            if filter_types(entry, &entry_types[k]) {
                out.push(Line::Path(entry.path.clone()));
            }
            k = k + 1;
        }
        assert(entry_types@.subrange(0, k as int) =~= entry_types@);
    }
    assert(lines_view(out@) =~= Seq::new(kind_count(entry_types@, *entry), |_i: int| LineView::Path(entry.path@)));
    out
}

/// The lines that one step of a walk produces: an error gives its message;
/// an entry gives [`entry_lines`] when its name passes the name filter; an
/// entry whose name is not text gives none.
pub fn process_item(config: &Config, item: &WalkItem) -> (r: Vec<Line>)
    ensures
        lines_view(r@) == item_lines(config@, *item),
{
    let ghost cfg = config@;
    match item {
        WalkItem::Failed(m) => {
            let mut out: Vec<Line> = Vec::new();
            out.push(Line::Problem(m.clone()));
            assert(lines_view(out@) =~= item_lines(cfg, *item));
            out
        },
        WalkItem::Found(e) => {
            let passes = match &e.file_name {
                None => false,
                Some(n) => name_passes(config.names(), n.as_str()),
            };
            if passes {
                let out = entry_lines(config.entry_types(), e);
                assert(lines_view(out@) =~= item_lines(cfg, *item));
                out
            } else {
                let out: Vec<Line> = Vec::new();
                assert(lines_view(out@) =~= item_lines(cfg, *item));
                out
            }
        },
    }
}

/// The lines of one whole walk, in the order of its steps.
pub fn filter_walk(config: &Config, walk: &Vec<WalkItem>) -> (r: Vec<Line>)
    ensures
        lines_view(r@) == walk_lines(config@, walk@),
{
    let mut out: Vec<Line> = Vec::new();
    let mut i: usize = 0;
    while i < walk.len()
        invariant
            i <= walk.len(),
            lines_view(out@) == walk_lines(config@, walk@.subrange(0, i as int)),
        decreases walk.len() - i,
    {
        let mut more = process_item(config, &walk[i]);
        let ghost before = out@;
        let ghost added = more@;
        out.append(&mut more);
        assert(walk@.subrange(0, i + 1).drop_last() =~= walk@.subrange(0, i as int));
        assert(lines_view(out@) =~= lines_view(before) + lines_view(added));
        i = i + 1;
    }
    assert(walk@.subrange(0, i as int) =~= walk@);
    out
}

/// The lines of the walks of every root: `walks[i]` is the walk of the
/// configuration's `i`-th root. All lines of one root come before any line
/// of the next.
pub fn run(config: &Config, walks: &Vec<Vec<WalkItem>>) -> (r: Vec<Line>)
    ensures
        lines_view(r@) == run_lines(config@, walk_views(walks@)),
{
    let ghost ws = walk_views(walks@);
    let mut out: Vec<Line> = Vec::new();
    let mut i: usize = 0;
    while i < walks.len()
        invariant
            ws == walk_views(walks@),
            i <= walks.len(),
            lines_view(out@) == run_lines(config@, ws.subrange(0, i as int)),
        decreases walks.len() - i,
    {
        let mut more = filter_walk(config, &walks[i]);
        let ghost before = out@;
        let ghost added = more@;
        out.append(&mut more);
        assert(ws.subrange(0, i + 1).drop_last() =~= ws.subrange(0, i as int));
        assert(lines_view(out@) =~= lines_view(before) + lines_view(added));
        i = i + 1;
    }
    assert(ws.subrange(0, i as int) =~= ws);
    out
}

} // verus!
