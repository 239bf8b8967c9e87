//! The catalog of known applications: loading, merging and searching it.
use crate::environment::Environment;
use crate::errors::{LoadError, InputError, ValidationError};
use crate::game::{accepts, prevails, refuses, resolved, Game, GameView, SavePathView};
use crate::paths::{join, joined};
use crate::text::{
    before, contains, lemma_before_total, lemma_before_transitive, lemma_trimmed_idempotent, lt,
    occurs_in,
};
use vstd::prelude::*;
use vstd::string::*;

verus! {

/// The newest catalog version that this release reads, and the one it
/// writes.
pub const VERSION: usize = 1;

/// A catalog as it is kept on disk: nothing in it has been checked, and the
/// expanded paths of its entries are not looked at.
#[derive(Debug)]
pub struct CatalogFile {
    pub version: usize,
    pub games: Vec<Game>,
}

/// The catalog in memory.
#[derive(Debug)]
pub struct Database {
    /// The version the catalog was read with.
    pub version: usize,
    /// The entries: after a load, in ascending order of id and with no id
    /// twice.
    pub games: Vec<Game>,
    /// Where the catalog is kept on disk; empty while it has no place.
    pub path: String,
}

/// The entries of a list, as plain values.
pub open spec fn views(games: Seq<Game>) -> Seq<GameView> {
    games.map_values(|g: Game| g@)
}

/// The sorted list `out` with the entry `g` taken in. Where `out` holds an
/// entry of the same id, the one that prevails stays, and `g` where neither
/// does.
pub open spec fn placed(g: GameView, out: Seq<GameView>) -> Seq<GameView>
    decreases out.len(),
{
    if out.len() == 0 {
        seq![g]
    } else if before(out.first().id, g.id) {
        seq![out.first()] + placed(g, out.drop_first())
    } else if out.first().id == g.id {
        if prevails(out.first().custom, out.first().title, g.custom, g.title) {
            out
        } else {
            seq![g] + out.drop_first()
        }
    } else {
        seq![g] + out
    }
}

/// The entries of `games` sorted by id, one for each id: of several entries
/// with one id the one that prevails, and the earliest in `games` where
/// several do.
pub open spec fn merged(games: Seq<GameView>) -> Seq<GameView>
    decreases games.len(),
{
    if games.len() == 0 {
        Seq::empty()
    } else {
        placed(games.first(), merged(games.drop_first()))
    }
}

/// Ids ascend strictly along `out`.
pub open spec fn ascending(out: Seq<GameView>) -> bool {
    forall|i: int, j: int| 0 <= i < j < out.len() ==> before(#[trigger] out[i].id, #[trigger] out[j].id)
}

/// Some entry of `games` has the id `id`.
pub open spec fn has_id(games: Seq<GameView>, id: Seq<char>) -> bool {
    exists|k: int| 0 <= k < games.len() && (#[trigger] games[k]).id == id
}

proof fn lemma_placed_prefix(g: GameView, out: Seq<GameView>, p: int)
    requires
        0 <= p <= out.len(),
        forall|i: int| 0 <= i < p ==> before((#[trigger] out[i]).id, g.id),
    ensures
        placed(g, out) == out.take(p) + placed(g, out.skip(p)),
    decreases p,
{
    if p == 0 {
        assert(out.skip(0) =~= out);
        assert(out.take(0) + placed(g, out) =~= placed(g, out));
    } else {
        let rest = out.drop_first();
        assert forall|i: int| 0 <= i < p - 1 implies before((#[trigger] rest[i]).id, g.id) by {
            assert(rest[i] == out[i + 1]);
        }
        lemma_placed_prefix(g, rest, p - 1);
        assert(before(out[0].id, g.id));
        assert(rest.skip(p - 1) =~= out.skip(p));
        assert(seq![out.first()] + (rest.take(p - 1) + placed(g, out.skip(p))) =~= out.take(p)
            + placed(g, out.skip(p)));
    }
}

/// Every entry of `placed(g, out)` is `g` or an entry of `out`.
proof fn lemma_placed_members(g: GameView, out: Seq<GameView>, i: int)
    requires
        0 <= i < placed(g, out).len(),
    ensures
        placed(g, out)[i] == g || out.contains(placed(g, out)[i]),
    decreases out.len(),
{
    if out.len() == 0 {
    } else if before(out.first().id, g.id) {
        if i == 0 {
            assert(out[0] == placed(g, out)[i]);
        } else {
            let rest = out.drop_first();
            lemma_placed_members(g, rest, i - 1);
            let x = placed(g, rest)[i - 1];
            assert(placed(g, out)[i] == x);
            if x != g {
                let k = choose|k: int| 0 <= k < rest.len() && rest[k] == x;
                assert(out[k + 1] == x);
            }
        }
    } else if out.first().id == g.id {
        if prevails(out.first().custom, out.first().title, g.custom, g.title) {
            assert(out[i] == placed(g, out)[i]);
        } else if i > 0 {
            assert(out[i] == placed(g, out)[i]);
        }
    } else {
        if i > 0 {
            assert(out[i - 1] == placed(g, out)[i]);
        }
    }
}

/// Taking an entry into a list whose ids ascend leaves them ascending.
proof fn lemma_placed_ascending(g: GameView, out: Seq<GameView>)
    requires
        ascending(out),
    ensures
        ascending(placed(g, out)),
    decreases out.len(),
{
    let new = placed(g, out);
    if out.len() == 0 {
    } else if before(out.first().id, g.id) {
        let rest = out.drop_first();
        assert forall|i: int, j: int| 0 <= i < j < rest.len() implies before(
            #[trigger] rest[i].id,
            #[trigger] rest[j].id,
        ) by {
            assert(rest[i] == out[i + 1] && rest[j] == out[j + 1]);
        }
        lemma_placed_ascending(g, rest);
        let tail = placed(g, rest);
        assert forall|i: int, j: int| 0 <= i < j < new.len() implies before(
            #[trigger] new[i].id,
            #[trigger] new[j].id,
        ) by {
            assert(new[j] == tail[j - 1]);
            if i == 0 {
                lemma_placed_members(g, rest, j - 1);
                if tail[j - 1] != g {
                    let k = choose|k: int| 0 <= k < rest.len() && rest[k] == tail[j - 1];
                    assert(rest[k] == out[k + 1]);
                }
            } else {
                assert(new[i] == tail[i - 1]);
            }
        }
    } else if out.first().id == g.id {
        if !prevails(out.first().custom, out.first().title, g.custom, g.title) {
            assert forall|i: int, j: int| 0 <= i < j < new.len() implies before(
                #[trigger] new[i].id,
                #[trigger] new[j].id,
            ) by {
                assert(new[j] == out[j]);
                assert(new[i].id == out[i].id);
            }
        }
    } else {
        lemma_before_total(out.first().id, g.id);
        assert forall|i: int, j: int| 0 <= i < j < new.len() implies before(
            #[trigger] new[i].id,
            #[trigger] new[j].id,
        ) by {
            assert(new[j] == out[j - 1]);
            if i == 0 {
                if j > 1 {
                    lemma_before_transitive(g.id, out[0].id, out[j - 1].id);
                }
            } else {
                assert(new[i] == out[i - 1]);
            }
        }
    }
}

/// `placed(g, out)` holds the ids of `out` and that of `g`, and no other.
proof fn lemma_placed_ids(g: GameView, out: Seq<GameView>, id: Seq<char>)
    ensures
        has_id(placed(g, out), id) <==> (id == g.id || has_id(out, id)),
    decreases out.len(),
{
    let new = placed(g, out);
    if has_id(new, id) {
        let i = choose|i: int| 0 <= i < new.len() && (#[trigger] new[i]).id == id;
        lemma_placed_members(g, out, i);
        if new[i] != g {
            let k = choose|k: int| 0 <= k < out.len() && out[k] == new[i];
            assert(out[k].id == id);
        }
    }
    if out.len() == 0 {
        assert(new[0].id == g.id);
        if has_id(out, id) {
            let k = choose|k: int| 0 <= k < out.len() && (#[trigger] out[k]).id == id;
        }
    } else if before(out.first().id, g.id) {
        let rest = out.drop_first();
        lemma_placed_ids(g, rest, id);
        let tail = placed(g, rest);
        if id == g.id || has_id(rest, id) {
            let i = choose|i: int| 0 <= i < tail.len() && (#[trigger] tail[i]).id == id;
            assert(new[i + 1] == tail[i]);
        }
        if has_id(out, id) {
            let k = choose|k: int| 0 <= k < out.len() && (#[trigger] out[k]).id == id;
            if k == 0 {
                assert(new[0] == out[0]);
            } else {
                assert(rest[k - 1] == out[k]);
            }
        }
    } else if out.first().id == g.id {
        if prevails(out.first().custom, out.first().title, g.custom, g.title) {
            if id == g.id {
                assert(out[0].id == id);
            }
        } else {
            assert(new[0] == g);
            if has_id(out, id) {
                let k = choose|k: int| 0 <= k < out.len() && (#[trigger] out[k]).id == id;
                if k > 0 {
                    assert(new[k] == out[k]);
                }
            }
        }
    } else {
        assert(new[0] == g);
        if has_id(out, id) {
            let k = choose|k: int| 0 <= k < out.len() && (#[trigger] out[k]).id == id;
            assert(new[k + 1] == out[k]);
        }
    }
}

/// Where ids ascend, an id stands at one place only.
proof fn lemma_ascending_unique(out: Seq<GameView>, i: int, j: int)
    requires
        ascending(out),
        0 <= i < out.len(),
        0 <= j < out.len(),
        out[i].id == out[j].id,
    ensures
        i == j,
{
    crate::text::lemma_before_irreflexive(out[i].id);
    if i < j {
        assert(before(out[i].id, out[j].id));
    } else if j < i {
        assert(before(out[j].id, out[i].id));
    }
}

/// The entry that `placed(g, out)` holds for the id of `g` is `g`, unless
/// the entry that `out` held for it prevails over `g`, which then stays; and
/// the entries of other ids stay as they were.
proof fn lemma_placed_keeps(g: GameView, out: Seq<GameView>, i: int)
    requires
        ascending(out),
        0 <= i < placed(g, out).len(),
    ensures
        placed(g, out)[i].id == g.id ==> placed(g, out)[i] == g || (out.contains(placed(g, out)[i])
            && prevails(placed(g, out)[i].custom, placed(g, out)[i].title, g.custom, g.title)),
        placed(g, out)[i].id != g.id ==> out.contains(placed(g, out)[i]),
    decreases out.len(),
{
    let new = placed(g, out);
    lemma_placed_members(g, out, i);
    if out.len() == 0 {
    } else if before(out.first().id, g.id) {
        crate::text::lemma_before_irreflexive(g.id);
        if i > 0 {
            let rest = out.drop_first();
            assert forall|a: int, b: int| 0 <= a < b < rest.len() implies before(
                #[trigger] rest[a].id,
                #[trigger] rest[b].id,
            ) by {
                assert(rest[a] == out[a + 1] && rest[b] == out[b + 1]);
            }
            lemma_placed_keeps(g, rest, i - 1);
            let x = placed(g, rest)[i - 1];
            assert(new[i] == x);
            if rest.contains(x) {
                let k = choose|k: int| 0 <= k < rest.len() && rest[k] == x;
                assert(out[k + 1] == x);
            }
        }
    } else if out.first().id == g.id {
        if prevails(out.first().custom, out.first().title, g.custom, g.title) {
            assert(new[i] == out[i]);
            if new[i].id == g.id {
                lemma_ascending_unique(out, 0, i);
            }
        } else if i > 0 {
            assert(new[i] == out[i]);
            if new[i].id == g.id {
                lemma_ascending_unique(out, 0, i);
            }
        }
    } else {
        lemma_before_total(out.first().id, g.id);
        crate::text::lemma_before_irreflexive(g.id);
        if i > 0 {
            assert(new[i] == out[i - 1]);
            if new[i].id == g.id {
                if i > 1 {
                    assert(before(out[0].id, out[i - 1].id));
                    lemma_before_transitive(g.id, out[0].id, out[i - 1].id);
                }
            }
        }
    }
}

/// Along a merged list the ids ascend strictly, so none stands twice.
pub proof fn lemma_merged_ascending(games: Seq<GameView>)
    ensures
        ascending(merged(games)),
    decreases games.len(),
{
    if games.len() > 0 {
        lemma_merged_ascending(games.drop_first());
        lemma_placed_ascending(games.first(), merged(games.drop_first()));
    }
}

/// A merged list holds exactly the ids of the list it was made from.
pub proof fn lemma_merged_ids(games: Seq<GameView>, id: Seq<char>)
    ensures
        has_id(merged(games), id) <==> has_id(games, id),
    decreases games.len(),
{
    if games.len() > 0 {
        let rest = games.drop_first();
        lemma_merged_ids(rest, id);
        lemma_placed_ids(games.first(), merged(rest), id);
        if has_id(rest, id) {
            let k = choose|k: int| 0 <= k < rest.len() && (#[trigger] rest[k]).id == id;
            assert(games[k + 1] == rest[k]);
        }
        if has_id(games, id) {
            let k = choose|k: int| 0 <= k < games.len() && (#[trigger] games[k]).id == id;
            if k > 0 {
                assert(rest[k - 1] == games[k]);
            }
        }
    } else {
        if has_id(games, id) {
            let k = choose|k: int| 0 <= k < games.len() && (#[trigger] games[k]).id == id;
        }
        if has_id(merged(games), id) {
            let k = choose|k: int| 0 <= k < merged(games).len() && (#[trigger] merged(games)[k]).id
                == id;
        }
    }
}

/// Where neither `a` prevails over `b` nor `b` over `c`, `a` does not prevail
/// over `c`.
proof fn lemma_prevails_chain(
    custom_a: bool,
    title_a: Seq<char>,
    custom_b: bool,
    title_b: Seq<char>,
    custom_c: bool,
    title_c: Seq<char>,
)
    requires
        !prevails(custom_a, title_a, custom_b, title_b),
        !prevails(custom_b, title_b, custom_c, title_c),
    ensures
        !prevails(custom_a, title_a, custom_c, title_c),
{
    lemma_before_total(title_a, title_b);
    lemma_before_total(title_b, title_c);
    lemma_before_total(title_a, title_c);
    if custom_a == custom_b && custom_b == custom_c && before(title_a, title_c) {
        if title_a == title_b {
        } else if title_b == title_c {
        } else {
            lemma_before_transitive(title_c, title_b, title_a);
        }
    }
}

/// Every entry of a merged list is an entry of the list it was made from,
/// and no entry of that list with the same id prevails over it.
pub proof fn lemma_merged_best(games: Seq<GameView>, i: int, k: int)
    requires
        0 <= i < merged(games).len(),
        0 <= k < games.len(),
        games[k].id == merged(games)[i].id,
    ensures
        games.contains(merged(games)[i]),
        !prevails(games[k].custom, games[k].title, merged(games)[i].custom, merged(games)[i].title),
    decreases games.len(),
{
    let g = games.first();
    let rest = games.drop_first();
    let out = merged(rest);
    let x = merged(games)[i];
    lemma_merged_ascending(rest);
    lemma_merged_ascending(games);
    lemma_placed_keeps(g, out, i);
    crate::text::lemma_before_irreflexive(x.title);
    lemma_before_total(g.title, x.title);
    if out.contains(x) {
        let j = choose|j: int| 0 <= j < out.len() && out[j] == x;
        assert(out[j].id == x.id);
        lemma_merged_ids(rest, x.id);
        let m = choose|m: int| 0 <= m < rest.len() && (#[trigger] rest[m]).id == x.id;
        lemma_merged_best(rest, j, m);
        let n = choose|n: int| 0 <= n < rest.len() && rest[n] == x;
        assert(games[n + 1] == x);
        if k > 0 {
            assert(rest[k - 1] == games[k]);
            lemma_merged_best(rest, j, k - 1);
        }
    } else {
        assert(x == g);
        assert(games[0] == x);
        if k > 0 {
            assert(rest[k - 1] == games[k]);
            assert(rest[k - 1].id == x.id);
            lemma_merged_ids(rest, x.id);
            let j = choose|j: int| 0 <= j < out.len() && (#[trigger] out[j]).id == x.id;
            lemma_merged_best(rest, j, k - 1);
            lemma_placed_replaces(g, out, j);
            if prevails(out[j].custom, out[j].title, g.custom, g.title) {
                let m = choose|m: int| 0 <= m < merged(games).len() && merged(games)[m] == out[j];
                lemma_ascending_unique(merged(games), i, m);
                assert(out.contains(x));
            }
            lemma_prevails_chain(
                games[k].custom,
                games[k].title,
                out[j].custom,
                out[j].title,
                g.custom,
                g.title,
            );
        }
    }
}

/// Where `out` holds an entry for the id of `g` and `placed` does not keep
/// it, that entry does not prevail over `g`.
proof fn lemma_placed_replaces(g: GameView, out: Seq<GameView>, j: int)
    requires
        ascending(out),
        0 <= j < out.len(),
        out[j].id == g.id,
    ensures
        prevails(out[j].custom, out[j].title, g.custom, g.title) ==> placed(g, out).contains(out[j]),
        !prevails(out[j].custom, out[j].title, g.custom, g.title) ==> placed(g, out).contains(g),
    decreases out.len(),
{
    let new = placed(g, out);
    if before(out.first().id, g.id) {
        crate::text::lemma_before_irreflexive(g.id);
        let rest = out.drop_first();
        assert forall|a: int, b: int| 0 <= a < b < rest.len() implies before(
            #[trigger] rest[a].id,
            #[trigger] rest[b].id,
        ) by {
            assert(rest[a] == out[a + 1] && rest[b] == out[b + 1]);
        }
        assert(rest[j - 1] == out[j]);
        lemma_placed_replaces(g, rest, j - 1);
        let tail = placed(g, rest);
        if prevails(out[j].custom, out[j].title, g.custom, g.title) {
            let m = choose|m: int| 0 <= m < tail.len() && tail[m] == out[j];
            assert(new[m + 1] == out[j]);
        } else {
            let m = choose|m: int| 0 <= m < tail.len() && tail[m] == g;
            assert(new[m + 1] == g);
        }
    } else if out.first().id == g.id {
        lemma_ascending_unique(out, 0, j);
        if prevails(out.first().custom, out.first().title, g.custom, g.title) {
            assert(new[0] == out[j]);
        } else {
            assert(new[0] == g);
        }
    } else {
        lemma_before_total(out.first().id, g.id);
        crate::text::lemma_before_irreflexive(g.id);
        if j > 0 {
            assert(before(out[0].id, out[j].id));
            lemma_before_transitive(g.id, out[0].id, out[j].id);
        }
    }
}

/// Of two entries with one id, one custom and one not, exactly one entry
/// with that id is left after merging, and it is a custom one.
pub proof fn lemma_custom_entry_wins(games: Seq<GameView>, a: int, b: int)
    requires
        0 <= a < games.len(),
        0 <= b < games.len(),
        games[a].id == games[b].id,
        games[a].custom,
        !games[b].custom,
    ensures
        exists|i: int|
            0 <= i < merged(games).len() && (#[trigger] merged(games)[i]).id == games[a].id
                && merged(games)[i].custom,
        forall|i: int, j: int|
            0 <= i < merged(games).len() && 0 <= j < merged(games).len() && merged(games)[i].id
                == games[a].id && merged(games)[j].id == games[a].id ==> i == j,
{
    let out = merged(games);
    lemma_merged_ids(games, games[a].id);
    lemma_merged_ascending(games);
    let i = choose|i: int| 0 <= i < out.len() && (#[trigger] out[i]).id == games[a].id;
    lemma_merged_best(games, i, a);
    assert(out[i].custom);
    assert forall|x: int, y: int|
        0 <= x < out.len() && 0 <= y < out.len() && out[x].id == games[a].id && out[y].id
            == games[a].id implies x == y by {
        lemma_ascending_unique(out, x, y);
    }
}

/// The name under which the catalog is kept in the storage directory.
pub const CATALOG_NAME: &'static str = "windows.json";

/// Where the catalog of the storage directory `storage_path` is kept.
pub open spec fn catalog_path(storage_path: Seq<char>) -> Seq<char> {
    joined(storage_path, CATALOG_NAME@)
}

/// Every save path of `game` can be resolved under `vars`.
pub open spec fn resolves(game: GameView, vars: Map<Seq<char>, Seq<char>>) -> bool {
    forall|j: int| 0 <= j < game.saves.len() ==> accepts((#[trigger] game.saves[j]).path, vars)
}

/// `game` with every save path resolved under `vars`.
pub open spec fn resolved_game(game: GameView, vars: Map<Seq<char>, Seq<char>>) -> GameView {
    GameView {
        title: game.title,
        id: game.id,
        custom: game.custom,
        saves: game.saves.map_values(|s: SavePathView| resolved(s.id, s.path, vars)),
    }
}

/// The save path `j` of `game` is its first that cannot be resolved.
pub open spec fn first_refused_save(game: GameView, vars: Map<Seq<char>, Seq<char>>, j: int)
    -> bool {
    &&& 0 <= j < game.saves.len()
    &&& !accepts(game.saves[j].path, vars)
    &&& forall|b: int| 0 <= b < j ==> accepts((#[trigger] game.saves[b]).path, vars)
}

/// The save path `j` of the entry `i` is the first of `games`, in their
/// order, that cannot be resolved.
pub open spec fn first_refused(
    games: Seq<GameView>,
    vars: Map<Seq<char>, Seq<char>>,
    i: int,
    j: int,
) -> bool {
    &&& 0 <= i < games.len()
    &&& first_refused_save(games[i], vars, j)
    &&& forall|a: int| 0 <= a < i ==> resolves(#[trigger] games[a], vars)
}

/// A catalog of the given version and entries can be loaded under `vars`: it
/// is not newer than [`VERSION`], and every save path of the entries that
/// merging keeps can be resolved.
pub open spec fn loads(version: usize, games: Seq<GameView>, vars: Map<Seq<char>, Seq<char>>)
    -> bool {
    &&& version <= VERSION
    &&& forall|i: int|
        0 <= i < merged(games).len() ==> resolves(#[trigger] merged(games)[i], vars)
}

/// `r` is what loading a catalog of the given version and entries gives
/// under `vars`, for a catalog kept at `path`: a catalog newer than
/// [`VERSION`] is refused; otherwise the entries are merged and resolved, and
/// the error is that of the first save path that cannot be resolved.
pub open spec fn is_load_of(
    r: Result<Database, LoadError>,
    version: usize,
    games: Seq<GameView>,
    vars: Map<Seq<char>, Seq<char>>,
    path: Seq<char>,
) -> bool {
    let kept = merged(games);
    match r {
        Ok(db) => {
            &&& version <= VERSION
            &&& forall|i: int| 0 <= i < kept.len() ==> resolves(#[trigger] kept[i], vars)
            &&& db.version == version
            &&& views(db.games@) == kept.map_values(|g: GameView| resolved_game(g, vars))
            &&& db.path@ == path
        },
        Err(LoadError::DatabaseTooNew(found, supported)) => {
            &&& version > VERSION
            &&& found == version
            &&& supported == VERSION
        },
        Err(LoadError::Validation(e)) => {
            &&& version <= VERSION
            &&& exists|i: int, j: int|
                #[trigger] first_refused(kept, vars, i, j) && refuses(
                    kept[i].saves[j].path,
                    vars,
                    e,
                )
        },
    }
}

/// The entries that adding an entry of the id `id` leaves in place: all but
/// the custom entries of that id.
pub open spec fn is_kept(id: Seq<char>) -> spec_fn(GameView) -> bool {
    |g: GameView| !(g.id == id && g.custom)
}

/// The keyword stands in the id or in the title of `game`.
pub open spec fn matches_keyword(game: GameView, keyword: Seq<char>) -> bool {
    occurs_in(keyword, game.id) || occurs_in(keyword, game.title)
}

/// `found` lists, in ascending order, the places of exactly those entries of
/// `games` that match `keyword`.
pub open spec fn is_search_result(found: Seq<usize>, games: Seq<GameView>, keyword: Seq<char>)
    -> bool {
    &&& forall|k: int|
        0 <= k < found.len() ==> (#[trigger] found[k]) < games.len() && matches_keyword(
            games[found[k] as int],
            keyword,
        )
    &&& forall|a: int, b: int| 0 <= a < b < found.len() ==> #[trigger] found[a] < #[trigger] found[b]
    &&& forall|i: int|
        0 <= i < games.len() && matches_keyword(#[trigger] games[i], keyword) ==> found.contains(
            i as usize,
        )
}

/// Whether, among entries of one id, `a` is kept in preference to `b`.
fn prevails_over(a: &Game, b: &Game) -> (r: bool)
    ensures
        r == prevails(a.custom, a.title@, b.custom, b.title@),
{
    if a.custom && !b.custom {
        true
    } else if a.custom == b.custom {
        lt(a.title.as_str(), b.title.as_str())
    } else {
        false
    }
}

/// Takes `g` into the sorted list `out`.
fn place(out: &mut Vec<Game>, g: Game)
    ensures
        views(final(out)@) == placed(g@, views(old(out)@)),
{
    let mut p: usize = 0;
    while p < out.len() && lt(out[p].id.as_str(), g.id.as_str())
        invariant
            p <= out@.len(),
            out@ == old(out)@,
            forall|i: int| 0 <= i < p ==> before((#[trigger] views(out@)[i]).id, g@.id),
        decreases out@.len() - p,
    {
        p += 1;
    }
    let ghost was = views(out@);
    proof {
        lemma_placed_prefix(g@, was, p as int);
        if p < was.len() {
            assert(was.skip(p as int).first() == was[p as int]);
        }
    }
    if p < out.len() && out[p].id == g.id {
        if !prevails_over(&out[p], &g) {
            let ghost gv = g@;
            out[p] = g;
            proof {
                assert(views(out@) =~= was.take(p as int) + (seq![gv] + was.skip(
                    p as int,
                ).drop_first()));
            }
        }
    } else {
        let ghost gv = g@;
        out.insert(p, g);
        proof {
            assert(views(out@) =~= was.take(p as int) + (seq![gv] + was.skip(p as int)));
            if p == was.len() {
                assert(seq![gv] + was.skip(p as int) =~= seq![gv]);
            }
        }
    }
}

/// Sorts the entries by id and keeps one for each id.
fn merge(games: Vec<Game>) -> (out: Vec<Game>)
    ensures
        views(out@) == merged(views(games@)),
{
    let ghost all = views(games@);
    let mut games = games;
    let mut out: Vec<Game> = Vec::new();
    proof {
        assert(all.skip(all.len() as int) =~= Seq::<GameView>::empty());
    }
    while games.len() > 0
        invariant
            games@.len() <= all.len(),
            views(games@) == all.take(games@.len() as int),
            views(out@) == merged(all.skip(games@.len() as int)),
        decreases games@.len(),
    {
        let ghost n = games@.len() as int;
        let ghost last = views(games@)[n - 1];
        let g = games.pop().unwrap();
        proof {
            assert(g@ == last);
            assert(last == all[n - 1]);
            assert(all.skip(n - 1).first() == all[n - 1]);
            assert(all.skip(n - 1).drop_first() =~= all.skip(n));
            assert(views(games@) =~= all.take(n - 1));
        }
        place(&mut out, g);
    }
    proof {
        assert(all.skip(0) =~= all);
    }
    out
}

/// Resolves every save path of `game` under `vars`, up to the first that
/// cannot be resolved.
fn resolve(game: &mut Game, vars: &Environment) -> (r: Result<(), ValidationError>)
    ensures
        match r {
            Ok(()) => resolves(old(game)@, vars@) && final(game)@ == resolved_game(
                old(game)@,
                vars@,
            ),
            Err(e) => exists|j: int|
                #[trigger] first_refused_save(old(game)@, vars@, j) && refuses(
                    old(game)@.saves[j].path,
                    vars@,
                    e,
                ),
        },
{
    let ghost was = game@;
    let mut j: usize = 0;
    while j < game.saves.len()
        invariant
            j <= game.saves@.len(),
            was == old(game)@,
            game@.title == was.title,
            game@.id == was.id,
            game@.custom == was.custom,
            game@.saves.len() == was.saves.len(),
            forall|b: int|
                0 <= b < j ==> accepts((#[trigger] was.saves[b]).path, vars@) && game@.saves[b]
                    == resolved(was.saves[b].id, was.saves[b].path, vars@),
            forall|b: int| j <= b < was.saves.len() ==> game@.saves[b] == #[trigger] was.saves[b],
        decreases game.saves@.len() - j,
    {
        let ghost before_step = game@;
        match game.saves[j].update_path(vars) {
            Ok(()) => {},
            Err(e) => {
                proof {
                    assert(before_step.saves[j as int] == was.saves[j as int]);
                    assert(first_refused_save(was, vars@, j as int));
                }
                return Err(e);
            },
        }
        proof {
            assert(before_step.saves[j as int] == was.saves[j as int]);
            assert forall|b: int| 0 <= b < game@.saves.len() && b != j implies game@.saves[b]
                == before_step.saves[b] by {}
        }
        j += 1;
    }
    proof {
        assert(game@.saves =~= resolved_game(was, vars@).saves);
    }
    Ok(())
}

impl Database {
    /// Opens the catalog of the storage directory `storage_path`: the one
    /// `found` there or, where none was found, the `bundled` one, which the
    /// caller then writes to [`Database::path`].
    pub fn new(
        storage_path: &str,
        found: Option<CatalogFile>,
        bundled: CatalogFile,
        vars: &Environment,
    ) -> (r: Result<Database, LoadError>)
        ensures
            match found {
                Some(file) => is_load_of(
                    r,
                    file.version,
                    views(file.games@),
                    vars@,
                    catalog_path(storage_path@),
                ),
                None => is_load_of(
                    r,
                    bundled.version,
                    views(bundled.games@),
                    vars@,
                    catalog_path(storage_path@),
                ),
            },
    {
        let file = match found {
            Some(file) => file,
            None => bundled,
        };
        match Database::load(file, vars) {
            Ok(db) => Ok(
                Database { version: db.version, games: db.games, path: join(storage_path, CATALOG_NAME) },
            ),
            Err(e) => Err(e),
        }
    }

    /// Loads a catalog: refuses one newer than [`VERSION`], merges the
    /// entries, and resolves every save path under `vars`. One save path that
    /// cannot be resolved fails the whole load.
    pub fn load(file: CatalogFile, vars: &Environment) -> (r: Result<Database, LoadError>)
        ensures
            is_load_of(r, file.version, views(file.games@), vars@, Seq::empty()),
            r matches Err(LoadError::DatabaseTooNew(_, _)) <==> file.version > VERSION,
            r is Ok <==> loads(file.version, views(file.games@), vars@),
    {
        if file.version > VERSION {
            return Err(LoadError::DatabaseTooNew(file.version, VERSION));
        }
        let version = file.version;
        let ghost input = views(file.games@);
        let mut games = merge(file.games);
        let ghost kept = views(games@);
        let mut i: usize = 0;
        while i < games.len()
            invariant
                version == file.version,
                version <= VERSION,
                input == views(file.games@),
                kept == merged(input),
                i <= games@.len(),
                games@.len() == kept.len(),
                forall|a: int|
                    0 <= a < i ==> resolves(#[trigger] kept[a], vars@) && games@[a]@
                        == resolved_game(kept[a], vars@),
                forall|a: int| i <= a < kept.len() ==> games@[a]@ == #[trigger] kept[a],
            decreases games@.len() - i,
        {
            let ghost before_step = games@;
            match resolve(&mut games[i], vars) {
                Ok(()) => {},
                Err(e) => {
                    proof {
                        assert(before_step[i as int]@ == kept[i as int]);
                        let j = choose|j: int|
                            #[trigger] first_refused_save(kept[i as int], vars@, j) && refuses(
                                kept[i as int].saves[j].path,
                                vars@,
                                e,
                            );
                        assert(first_refused(kept, vars@, i as int, j));
                    }
                    return Err(LoadError::Validation(e));
                },
            }
            proof {
                assert(before_step[i as int]@ == kept[i as int]);
                assert forall|a: int| 0 <= a < games@.len() && a != i implies games@[a]
                    == before_step[a] by {}
            }
            i += 1;
        }
        proof {
            assert(views(games@) =~= kept.map_values(|g: GameView| resolved_game(g, vars@)));
        }
        Ok(Database { version, games, path: String::new() })
    }

    /// Puts the catalog into the form in which it is written out: with the
    /// current version.
    pub fn save(&mut self)
        ensures
            final(self).version == VERSION,
            final(self).games == old(self).games,
            final(self).path == old(self).path,
    {
        self.version = VERSION;
    }

    /// The entry with the id `id`: the first, where there are several.
    pub fn find_by_id(&self, id: &str) -> (r: Option<&Game>)
        ensures
            match r {
                Some(game) => exists|i: int|
                    0 <= i < self.games@.len() && #[trigger] self.games@[i] == *game && game.id@
                        == id@ && forall|a: int|
                        0 <= a < i ==> (#[trigger] self.games@[a]).id@ != id@,
                None => forall|a: int|
                    0 <= a < self.games@.len() ==> (#[trigger] self.games@[a]).id@ != id@,
            },
    {
        let key = id.to_owned();
        let mut i: usize = 0;
        while i < self.games.len()
            invariant
                i <= self.games@.len(),
                key@ == id@,
                forall|a: int| 0 <= a < i ==> (#[trigger] self.games@[a]).id@ != id@,
            decreases self.games@.len() - i,
        {
            if self.games[i].id == key {
                return Some(&self.games[i]);
            }
            i += 1;
        }
        None
    }

    /// Adds `game`, in place of the custom entries of the same id. Entries of
    /// that id that are not custom stay. An entry without an id is refused,
    /// and the catalog stays as it is.
    pub fn add(&mut self, game: Game) -> (r: Result<(), InputError>)
        ensures
            r is Err <==> game@.id.len() == 0,
            r matches Err(e) ==> e == InputError::EmptyId && *final(self) == *old(self),
            r is Ok ==> views(final(self).games@) == views(old(self).games@).filter(
                is_kept(game@.id),
            ).push(game@),
            final(self).version == old(self).version,
            final(self).path == old(self).path,
    {
        if game.id.as_str().is_empty() {
            return Err(InputError::EmptyId);
        }
        let ghost was = views(self.games@);
        let ghost keep = is_kept(game@.id);
        let ghost done: int = 0;
        let mut i: usize = 0;
        proof {
            reveal(Seq::filter);
            assert(was.take(0) =~= Seq::<GameView>::empty());
            assert(was.skip(0) =~= was);
        }
        while i < self.games.len()
            invariant
                self.version == old(self).version,
                self.path == old(self).path,
                was == views(old(self).games@),
                keep == is_kept(game@.id),
                0 <= done <= was.len(),
                i == was.take(done).filter(keep).len(),
                views(self.games@) == was.take(done).filter(keep) + was.skip(done),
            decreases was.len() - done,
        {
            let ghost current = views(self.games@);
            let ghost kept = was.take(done).filter(keep);
            proof {
                reveal(Seq::filter);
                assert(current[i as int] == was.skip(done)[0]);
                assert(was.take(done + 1).drop_last() =~= was.take(done));
                assert(was.take(done + 1).last() == was[done]);
                assert(was.take(done + 1).filter(keep) == if keep(was[done]) {
                    kept.push(was[done])
                } else {
                    kept
                });
            }
            if self.games[i].custom && self.games[i].id == game.id {
                self.games.remove(i);
                proof {
                    assert(!keep(was[done]));
                    assert(views(self.games@) =~= current.remove(i as int));
                    assert(current.remove(i as int) =~= kept + was.skip(done + 1));
                }
            } else {
                proof {
                    assert(current =~= was.take(done + 1).filter(keep) + was.skip(done + 1));
                }
                i += 1;
            }
            proof {
                done = done + 1;
            }
        }
        proof {
            assert(was.take(done) =~= was);
            assert(was.skip(done) =~= Seq::<GameView>::empty());
            assert(views(self.games@) =~= was.filter(keep));
            assert(views(self.games@.push(game)) =~= views(self.games@).push(game@));
        }
        self.games.push(game);
        Ok(())
    }

    /// The places of the entries whose id or title holds `keyword`, which must
    /// not be empty. No place means that nothing was found.
    pub fn search(&self, keyword: &str) -> (r: Result<Vec<usize>, InputError>)
        ensures
            r is Err <==> keyword@.len() == 0,
            r matches Err(e) ==> e == InputError::EmptyKeyword,
            r matches Ok(found) ==> is_search_result(found@, views(self.games@), keyword@),
    {
        if keyword.is_empty() {
            return Err(InputError::EmptyKeyword);
        }
        let mut found: Vec<usize> = Vec::new();
        let mut i: usize = 0;
        while i < self.games.len()
            invariant
                i <= self.games@.len(),
                forall|k: int|
                    0 <= k < found@.len() ==> (#[trigger] found@[k]) < i && matches_keyword(
                        views(self.games@)[found@[k] as int],
                        keyword@,
                    ),
                forall|a: int, b: int|
                    0 <= a < b < found@.len() ==> #[trigger] found@[a] < #[trigger] found@[b],
                forall|a: int|
                    0 <= a < i && matches_keyword(#[trigger] views(self.games@)[a], keyword@)
                        ==> found@.contains(a as usize),
            decreases self.games@.len() - i,
        {
            if contains(self.games[i].id.as_str(), keyword) || contains(
                self.games[i].title.as_str(),
                keyword,
            ) {
                let ghost was = found@;
                found.push(i);
                proof {
                    assert(found@[was.len() as int] == i);
                    assert forall|a: int|
                        0 <= a < i + 1 && matches_keyword(
                            #[trigger] views(self.games@)[a],
                            keyword@,
                        ) implies found@.contains(a as usize) by {
                        if a < i {
                            let k = choose|k: int| 0 <= k < was.len() && was[k] == a as usize;
                            assert(found@[k] == a as usize);
                        }
                    }
                }
            }
            i += 1;
        }
        Ok(found)
    }
}

/// A loaded catalog holds its entries in ascending order of id, so no id
/// twice.
pub proof fn lemma_loaded_ascending(
    r: Result<Database, LoadError>,
    version: usize,
    games: Seq<GameView>,
    vars: Map<Seq<char>, Seq<char>>,
    path: Seq<char>,
)
    requires
        is_load_of(r, version, games, vars, path),
        r is Ok,
    ensures
        ascending(views(r->Ok_0.games@)),
{
    let kept = merged(games);
    let loaded = views(r->Ok_0.games@);
    lemma_merged_ascending(games);
    assert forall|i: int, j: int| 0 <= i < j < loaded.len() implies before(
        #[trigger] loaded[i].id,
        #[trigger] loaded[j].id,
    ) by {
        assert(loaded[i].id == kept[i].id);
        assert(loaded[j].id == kept[j].id);
    }
}

/// After a custom entry was added, the catalog holds exactly one custom
/// entry of its id: the one added, which stands last.
pub proof fn lemma_add_replaces(games: Seq<GameView>, game: GameView)
    requires
        game.custom,
    ensures
        forall|i: int|
            0 <= i < games.filter(is_kept(game.id)).push(game).len() && (#[trigger] games.filter(
                is_kept(game.id),
            ).push(game)[i]).id == game.id && games.filter(is_kept(game.id)).push(game)[i].custom
                ==> i == games.filter(is_kept(game.id)).len(),
        games.filter(is_kept(game.id)).push(game).last() == game,
{
    let keep = is_kept(game.id);
    let kept = games.filter(keep);
    assert forall|i: int|
        0 <= i < kept.push(game).len() && (#[trigger] kept.push(game)[i]).id == game.id
            && kept.push(game)[i].custom implies i == kept.len() by {
        if i < kept.len() {
            games.lemma_filter_pred(keep, i);
            assert(keep(kept[i]));
        }
    }
}

/// Merging a list whose ids ascend changes nothing.
pub proof fn lemma_merged_of_ascending(games: Seq<GameView>)
    requires
        ascending(games),
    ensures
        merged(games) == games,
    decreases games.len(),
{
    if games.len() > 0 {
        let g = games.first();
        let rest = games.drop_first();
        assert forall|i: int, j: int| 0 <= i < j < rest.len() implies before(
            #[trigger] rest[i].id,
            #[trigger] rest[j].id,
        ) by {
            assert(rest[i] == games[i + 1] && rest[j] == games[j + 1]);
        }
        lemma_merged_of_ascending(rest);
        if rest.len() > 0 {
            assert(rest.first() == games[1]);
            assert(before(games[0].id, games[1].id));
            lemma_before_total(g.id, rest.first().id);
            crate::text::lemma_before_irreflexive(g.id);
        }
        assert(seq![g] + rest =~= games);
    } else {
        assert(games =~= Seq::<GameView>::empty());
    }
}

/// Resolving a save path that was resolved under the same variables changes
/// nothing, and it is accepted as at first.
pub proof fn lemma_resolved_again(id: Seq<char>, path: Seq<char>, vars: Map<Seq<char>, Seq<char>>)
    ensures
        resolved(id, resolved(id, path, vars).path, vars) == resolved(id, path, vars),
        accepts(resolved(id, path, vars).path, vars) == accepts(path, vars),
{
    lemma_trimmed_idempotent(path);
}

/// A loaded catalog loads again to itself: where the entries of a loaded
/// catalog are loaded under the same variables, the load succeeds and gives
/// the same entries.
pub proof fn lemma_load_again(
    first: Result<Database, LoadError>,
    second: Result<Database, LoadError>,
    version: usize,
    games: Seq<GameView>,
    vars: Map<Seq<char>, Seq<char>>,
    path: Seq<char>,
    path_again: Seq<char>,
)
    requires
        is_load_of(first, version, games, vars, path),
        first is Ok,
        is_load_of(
            second,
            first->Ok_0.version,
            views(first->Ok_0.games@),
            vars,
            path_again,
        ),
    ensures
        second is Ok,
        second->Ok_0.version == first->Ok_0.version,
        views(second->Ok_0.games@) == views(first->Ok_0.games@),
{
    let kept = merged(games);
    let loaded = views(first->Ok_0.games@);
    lemma_loaded_ascending(first, version, games, vars, path);
    lemma_merged_of_ascending(loaded);
    assert forall|i: int| 0 <= i < loaded.len() implies resolves(
        #[trigger] loaded[i],
        vars,
    ) && resolved_game(loaded[i], vars) == loaded[i] by {
        assert(resolves(kept[i], vars));
        assert(loaded[i] == resolved_game(kept[i], vars));
        assert forall|j: int| 0 <= j < loaded[i].saves.len() implies accepts(
            (#[trigger] loaded[i].saves[j]).path,
            vars,
        ) && resolved(loaded[i].saves[j].id, loaded[i].saves[j].path, vars)
            == loaded[i].saves[j] by {
            let was = kept[i].saves[j];
            assert(accepts(was.path, vars));
            lemma_resolved_again(was.id, was.path, vars);
        }
        assert(resolved_game(loaded[i], vars).saves =~= loaded[i].saves);
    }
    if second is Ok {
        assert(views(second->Ok_0.games@) =~= loaded);
    }
}

} // verus!
