//! Properties of the filter pipeline over every configuration and every
//! walk, stated over the models that the executable functions are proved
//! against.
use crate::config::{regex_matches, ConfigView, EntryType};
use crate::traverse::{
    emit_count, item_lines, run_lines, type_copies, type_holds, walk_lines, Entry, LineView,
    WalkItem,
};
use vstd::prelude::*;

verus! {

/// The line of an unfiltered listing for one step of a walk.
pub open spec fn listing_line(item: WalkItem) -> LineView {
    match item {
        WalkItem::Found(e) => LineView::Path(e.path@),
        WalkItem::Failed(m) => LineView::Problem(m@),
    }
}

/// The unfiltered listing of the walks of all roots, root by root.
pub open spec fn full_listing(walks: Seq<Seq<WalkItem>>) -> Seq<LineView>
    decreases walks.len(),
{
    if walks.len() == 0 {
        seq![]
    } else {
        full_listing(walks.drop_last()) + walks.last().map_values(|i: WalkItem| listing_line(i))
    }
}

/// Every entry of the walk has a base name that is text.
pub open spec fn names_are_text(walk: Seq<WalkItem>) -> bool {
    forall|j: int| 0 <= j < walk.len() ==> !(#[trigger] walk[j] matches WalkItem::Found(e) && e.file_name is None)
}

/// The step `item` prints the path `p` at least once.
pub open spec fn prints_path(cfg: ConfigView, item: WalkItem, p: Seq<char>) -> bool {
    item matches WalkItem::Found(e) && e.path@ == p && emit_count(cfg, e) > 0
}

/// The step is an entry whose path is the one that line `l` prints.
pub open spec fn is_entry_at(item: WalkItem, l: LineView) -> bool {
    match item {
        WalkItem::Found(e) => l == LineView::Path(e.path@),
        WalkItem::Failed(_) => false,
    }
}

/// The step is an entry whose base name is text and is matched by one of
/// the patterns.
pub open spec fn name_is_matched(names: Seq<Seq<char>>, item: WalkItem) -> bool {
    match item {
        WalkItem::Found(e) => match e.file_name {
            Some(n) => exists|i: int| 0 <= i < names.len() && regex_matches(#[trigger] names[i], n@),
            None => false,
        },
        WalkItem::Failed(_) => false,
    }
}

/// The step is an entry of at least one of the kinds in `types`.
pub open spec fn kind_is_requested(types: Seq<EntryType>, item: WalkItem) -> bool {
    match item {
        WalkItem::Found(e) => exists|t: int| 0 <= t < types.len() && type_holds(e, #[trigger] types[t]),
        WalkItem::Failed(_) => false,
    }
}

/// The set of paths printed for the given walks.
pub open spec fn printed_paths(cfg: ConfigView, walks: Seq<Seq<WalkItem>>) -> Set<Seq<char>> {
    Set::new(|p: Seq<char>| run_lines(cfg, walks).contains(LineView::Path(p)))
}

proof fn lemma_walk_unfiltered(cfg: ConfigView, walk: Seq<WalkItem>)
    requires
        cfg.names.len() == 0,
        cfg.types.len() == 0,
        names_are_text(walk),
    ensures
        walk_lines(cfg, walk) == walk.map_values(|i: WalkItem| listing_line(i)),
    decreases walk.len(),
{
    if walk.len() > 0 {
        let w = walk.drop_last();
        assert forall|j: int| 0 <= j < w.len() implies !(#[trigger] w[j] matches WalkItem::Found(e)
            && e.file_name is None) by {
            assert(w[j] == walk[j]);
        }
        lemma_walk_unfiltered(cfg, w);
        assert(names_are_text(walk) ==> !(walk[walk.len() - 1] matches WalkItem::Found(e)
            && e.file_name is None));
        assert(item_lines(cfg, walk.last()) =~= seq![listing_line(walk.last())]);
        assert(walk_lines(cfg, walk) =~= walk.map_values(|i: WalkItem| listing_line(i)));
    } else {
        assert(walk_lines(cfg, walk) =~= walk.map_values(|i: WalkItem| listing_line(i)));
    }
}

/// With no name patterns and no kind filters, the output is the full
/// listing of every root: each visited entry's path once, each error's
/// message once, in the order of the walks. (An entry whose base name is
/// not text is skipped, so the walks are taken to have none.)
pub proof fn law_unfiltered_is_full_listing(cfg: ConfigView, walks: Seq<Seq<WalkItem>>)
    requires
        cfg.names.len() == 0,
        cfg.types.len() == 0,
        forall|r: int| 0 <= r < walks.len() ==> names_are_text(#[trigger] walks[r]),
    ensures
        run_lines(cfg, walks) == full_listing(walks),
    decreases walks.len(),
{
    if walks.len() > 0 {
        let ws = walks.drop_last();
        assert forall|r: int| 0 <= r < ws.len() implies names_are_text(#[trigger] ws[r]) by {
            assert(ws[r] == walks[r]);
        }
        law_unfiltered_is_full_listing(cfg, ws);
        assert(names_are_text(walks[walks.len() - 1]));
        lemma_walk_unfiltered(cfg, walks.last());
    }
}

/// Every line of a walk's output comes from one of its steps.
proof fn lemma_walk_line_origin(cfg: ConfigView, walk: Seq<WalkItem>, k: int) -> (j: int)
    requires
        0 <= k < walk_lines(cfg, walk).len(),
    ensures
        0 <= j < walk.len(),
        item_lines(cfg, walk[j]).contains(walk_lines(cfg, walk)[k]),
    decreases walk.len(),
{
    let w = walk.drop_last();
    let n = walk_lines(cfg, w).len() as int;
    if k < n {
        let j = lemma_walk_line_origin(cfg, w, k);
        assert(w[j] == walk[j]);
        j
    } else {
        let j = walk.len() - 1;
        assert(item_lines(cfg, walk[j])[k - n] == walk_lines(cfg, walk)[k]);
        j
    }
}

/// Every line of the output comes from one step of one root's walk.
proof fn lemma_run_line_origin(cfg: ConfigView, walks: Seq<Seq<WalkItem>>, k: int) -> (rj: (
    int,
    int,
))
    requires
        0 <= k < run_lines(cfg, walks).len(),
    ensures
        0 <= rj.0 < walks.len(),
        0 <= rj.1 < walks[rj.0].len(),
        item_lines(cfg, walks[rj.0][rj.1]).contains(run_lines(cfg, walks)[k]),
    decreases walks.len(),
{
    let ws = walks.drop_last();
    let n = run_lines(cfg, ws).len() as int;
    if k < n {
        let rj = lemma_run_line_origin(cfg, ws, k);
        assert(ws[rj.0] == walks[rj.0]);
        rj
    } else {
        let r = walks.len() - 1;
        let j = lemma_walk_line_origin(cfg, walks[r], k - n);
        (r, j)
    }
}

/// A step's lines all stand in the output of its walk.
proof fn lemma_walk_line_included(cfg: ConfigView, walk: Seq<WalkItem>, j: int, l: LineView)
    requires
        0 <= j < walk.len(),
        item_lines(cfg, walk[j]).contains(l),
    ensures
        walk_lines(cfg, walk).contains(l),
    decreases walk.len(),
{
    let w = walk.drop_last();
    let n = walk_lines(cfg, w).len() as int;
    if j < walk.len() - 1 {
        assert(w[j] == walk[j]);
        lemma_walk_line_included(cfg, w, j, l);
        let m = choose|m: int| 0 <= m < n && walk_lines(cfg, w)[m] == l;
        assert(walk_lines(cfg, walk)[m] == l);
    } else {
        let m = choose|m: int|
            0 <= m < item_lines(cfg, walk[j]).len() && item_lines(cfg, walk[j])[m] == l;
        assert(walk_lines(cfg, walk)[n + m] == l);
    }
}

/// A walk's lines all stand in the output of the run.
proof fn lemma_run_line_included(cfg: ConfigView, walks: Seq<Seq<WalkItem>>, r: int, l: LineView)
    requires
        0 <= r < walks.len(),
        walk_lines(cfg, walks[r]).contains(l),
    ensures
        run_lines(cfg, walks).contains(l),
    decreases walks.len(),
{
    let ws = walks.drop_last();
    let n = run_lines(cfg, ws).len() as int;
    if r < walks.len() - 1 {
        assert(ws[r] == walks[r]);
        lemma_run_line_included(cfg, ws, r, l);
        let m = choose|m: int| 0 <= m < n && run_lines(cfg, ws)[m] == l;
        assert(run_lines(cfg, walks)[m] == l);
    } else {
        let m = choose|m: int|
            0 <= m < walk_lines(cfg, walks[r]).len() && walk_lines(cfg, walks[r])[m] == l;
        assert(run_lines(cfg, walks)[n + m] == l);
    }
}

/// Whether a path is printed depends only on which steps the walks hold.
proof fn lemma_printed_iff(cfg: ConfigView, walks: Seq<Seq<WalkItem>>, p: Seq<char>)
    ensures
        run_lines(cfg, walks).contains(LineView::Path(p)) <==> exists|r: int, j: int|
            0 <= r < walks.len() && 0 <= j < walks[r].len() && prints_path(
                cfg,
                #[trigger] walks[r][j],
                p,
            ),
{
    let l = LineView::Path(p);
    if run_lines(cfg, walks).contains(l) {
        let k = choose|k: int| 0 <= k < run_lines(cfg, walks).len() && run_lines(cfg, walks)[k] == l;
        let rj = lemma_run_line_origin(cfg, walks, k);
        assert(prints_path(cfg, walks[rj.0][rj.1], p));
    }
    if exists|r: int, j: int|
        0 <= r < walks.len() && 0 <= j < walks[r].len() && prints_path(cfg, #[trigger] walks[r][j], p)
    {
        let (r, j) = choose|r: int, j: int|
            0 <= r < walks.len() && 0 <= j < walks[r].len() && prints_path(
                cfg,
                #[trigger] walks[r][j],
                p,
            );
        assert(item_lines(cfg, walks[r][j])[0] == l);
        lemma_walk_line_included(cfg, walks[r], j, l);
        lemma_run_line_included(cfg, walks, r, l);
    }
}

/// With name patterns given, every printed path is that of a visited entry
/// whose base name is text and is matched by at least one pattern.
pub proof fn law_printed_names_match(cfg: ConfigView, walks: Seq<Seq<WalkItem>>, k: int)
    requires
        cfg.names.len() > 0,
        0 <= k < run_lines(cfg, walks).len(),
        run_lines(cfg, walks)[k] is Path,
    ensures
        exists|r: int, j: int|
            0 <= r < walks.len() && 0 <= j < walks[r].len() && is_entry_at(
                #[trigger] walks[r][j],
                run_lines(cfg, walks)[k],
            ) && name_is_matched(cfg.names, walks[r][j]),
{
    let rj = lemma_run_line_origin(cfg, walks, k);
    let item = walks[rj.0][rj.1];
    assert(item is Found);
}

/// With name patterns given, an entry whose base name no pattern matches
/// prints nothing, whatever the kind filters.
pub proof fn law_unmatched_name_not_printed(cfg: ConfigView, e: Entry)
    requires
        cfg.names.len() > 0,
        e.file_name matches Some(n) && forall|i: int| 0 <= i < cfg.names.len() ==> !regex_matches(#[trigger] cfg.names[i], n@),
    ensures
        item_lines(cfg, WalkItem::Found(e)).len() == 0,
{
}

proof fn lemma_copies_has_kind(types: Seq<EntryType>, e: Entry)
    requires
        type_copies(types, e) > 0,
    ensures
        exists|t: int| 0 <= t < types.len() && type_holds(e, #[trigger] types[t]),
    decreases types.len(),
{
    if !type_holds(e, types.last()) {
        lemma_copies_has_kind(types.drop_last(), e);
        let t = choose|t: int| 0 <= t < types.len() - 1 && type_holds(e, #[trigger] types.drop_last()[t]);
        assert(types[t] == types.drop_last()[t]);
    } else {
        assert(type_holds(e, types[types.len() - 1]));
    }
}

proof fn lemma_copies_is_filter_len(types: Seq<EntryType>, e: Entry)
    ensures
        type_copies(types, e) == types.filter(|t: EntryType| type_holds(e, t)).len(),
    decreases types.len(),
{
    reveal(Seq::filter);
    if types.len() > 0 {
        lemma_copies_is_filter_len(types.drop_last(), e);
    }
}

/// With kind filters given, every printed path is that of a visited entry
/// of at least one of the requested kinds.
pub proof fn law_printed_kinds_match(cfg: ConfigView, walks: Seq<Seq<WalkItem>>, k: int)
    requires
        cfg.types.len() > 0,
        0 <= k < run_lines(cfg, walks).len(),
        run_lines(cfg, walks)[k] is Path,
    ensures
        exists|r: int, j: int|
            0 <= r < walks.len() && 0 <= j < walks[r].len() && is_entry_at(
                #[trigger] walks[r][j],
                run_lines(cfg, walks)[k],
            ) && kind_is_requested(cfg.types, walks[r][j]),
{
    let rj = lemma_run_line_origin(cfg, walks, k);
    let item = walks[rj.0][rj.1];
    assert(item is Found);
    if let WalkItem::Found(e) = item {
        lemma_copies_has_kind(cfg.types, e);
    }
}

/// With kind filters given, an entry whose name passes prints its path once
/// for each filter in the list that it meets, repeats counted.
pub proof fn law_one_line_per_matching_filter(cfg: ConfigView, e: Entry)
    requires
        cfg.types.len() > 0,
        e.file_name matches Some(n) && (cfg.names.len() == 0 || exists|i: int|
            0 <= i < cfg.names.len() && regex_matches(#[trigger] cfg.names[i], n@)),
    ensures
        item_lines(cfg, WalkItem::Found(e)).len() == cfg.types.filter(|t: EntryType| type_holds(e, t)).len(),
        forall|m: int|
            0 <= m < item_lines(cfg, WalkItem::Found(e)).len() ==> #[trigger] item_lines(cfg, WalkItem::Found(e))[m]
                == LineView::Path(e.path@),
{
    lemma_copies_is_filter_len(cfg.types, e);
}

/// Runs over walks that visit the same steps for each root, in whatever
/// order among siblings, print the same set of paths.
pub proof fn law_same_entries_same_paths(
    cfg: ConfigView,
    walks1: Seq<Seq<WalkItem>>,
    walks2: Seq<Seq<WalkItem>>,
)
    requires
        walks1.len() == walks2.len(),
        forall|r: int| 0 <= r < walks1.len() ==> #[trigger] walks1[r].to_set() == walks2[r].to_set(),
    ensures
        printed_paths(cfg, walks1) == printed_paths(cfg, walks2),
{
    assert forall|p: Seq<char>| printed_paths(cfg, walks1).contains(p) == printed_paths(cfg, walks2).contains(p) by {
        lemma_printed_iff(cfg, walks1, p);
        lemma_printed_iff(cfg, walks2, p);
        if printed_paths(cfg, walks1).contains(p) {
            let (r, j) = choose|r: int, j: int|
                0 <= r < walks1.len() && 0 <= j < walks1[r].len() && prints_path(cfg, #[trigger] walks1[r][j], p);
            assert(walks1[r].to_set().contains(walks1[r][j]));
            assert(walks2[r].to_set().contains(walks1[r][j]));
            let j2 = choose|j2: int| 0 <= j2 < walks2[r].len() && walks2[r][j2] == walks1[r][j];
            assert(prints_path(cfg, walks2[r][j2], p));
        }
        if printed_paths(cfg, walks2).contains(p) {
            let (r, j) = choose|r: int, j: int|
                0 <= r < walks2.len() && 0 <= j < walks2[r].len() && prints_path(cfg, #[trigger] walks2[r][j], p);
            assert(walks2[r].to_set().contains(walks2[r][j]));
            assert(walks1[r].to_set().contains(walks2[r][j]));
            let j1 = choose|j1: int| 0 <= j1 < walks1[r].len() && walks1[r][j1] == walks2[r][j];
            assert(prints_path(cfg, walks1[r][j1], p));
        }
    }
    assert(printed_paths(cfg, walks1) =~= printed_paths(cfg, walks2));
}

proof fn lemma_prefix_of_run(cfg: ConfigView, walks: Seq<Seq<WalkItem>>, n: int)
    requires
        0 <= n <= walks.len(),
    ensures
        run_lines(cfg, walks.take(n)).len() <= run_lines(cfg, walks).len(),
        run_lines(cfg, walks).take(run_lines(cfg, walks.take(n)).len() as int) == run_lines(cfg, walks.take(n)),
    decreases walks.len(),
{
    if n == walks.len() {
        assert(walks.take(n) =~= walks);
        assert(run_lines(cfg, walks).take(run_lines(cfg, walks).len() as int) =~= run_lines(cfg, walks));
    } else {
        let ws = walks.drop_last();
        assert(ws.take(n) =~= walks.take(n));
        lemma_prefix_of_run(cfg, ws, n);
        let m = run_lines(cfg, walks.take(n)).len() as int;
        assert(run_lines(cfg, walks).take(m) =~= run_lines(cfg, ws).take(m));
    }
}

/// The output of root `i` comes whole, right after that of roots before it
/// and before any line of the roots after it.
pub proof fn law_roots_in_order(cfg: ConfigView, walks: Seq<Seq<WalkItem>>, i: int)
    requires
        0 <= i < walks.len(),
    ensures
        run_lines(cfg, walks.take(i + 1)) == run_lines(cfg, walks.take(i)) + walk_lines(cfg, walks[i]),
        run_lines(cfg, walks).take(run_lines(cfg, walks.take(i + 1)).len() as int) == run_lines(
            cfg,
            walks.take(i + 1),
        ),
{
    assert(walks.take(i + 1).drop_last() =~= walks.take(i));
    lemma_prefix_of_run(cfg, walks, i + 1);
}

} // verus!
