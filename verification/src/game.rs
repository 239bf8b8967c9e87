//! Catalog entries: an application and the places where it keeps its saves.
use crate::environment::{expand, expandable, expansion, is_expandable, Environment};
use crate::errors::ValidationError;
use crate::paths::{is_relative, relative};
use crate::text::{before, lt, trim, trimmed};
use std::cmp::Ordering;
use vstd::prelude::*;
use vstd::std_specs::cmp::{PartialEqSpecImpl, PartialOrdSpecImpl};
use vstd::string::*;

verus! {

/// One place where an application keeps saves.
#[derive(Clone, Debug)]
pub struct SavePath {
    /// Names the place within its entry; also the name under which the data
    /// is kept in storage.
    pub id: String,
    /// The template as it was stored, trimmed. Change it with
    /// [`SavePath::set_path`], which resolves it again.
    pub path: String,
    /// The template with its variables replaced, as of the last resolution.
    pub expanded: String,
}

/// What a [`SavePath`] holds, as plain texts.
pub struct SavePathView {
    pub id: Seq<char>,
    pub path: Seq<char>,
    pub expanded: Seq<char>,
}

impl View for SavePath {
    type V = SavePathView;

    open spec fn view(&self) -> SavePathView {
        SavePathView { id: self.id@, path: self.path@, expanded: self.expanded@ }
    }
}

/// What resolving the template `path` for the place `id` leaves in a
/// [`SavePath`]: the template trimmed, and its expansion under `vars`.
pub open spec fn resolved(id: Seq<char>, path: Seq<char>, vars: Map<Seq<char>, Seq<char>>)
    -> SavePathView {
    SavePathView { id, path: trimmed(path), expanded: expansion(trimmed(path), vars) }
}

/// The template `path` can be resolved under `vars`: trimmed, it can be
/// expanded, and its expansion is an absolute path.
pub open spec fn accepts(path: Seq<char>, vars: Map<Seq<char>, Seq<char>>) -> bool {
    expandable(trimmed(path)) && !relative(expansion(trimmed(path), vars))
}

/// `e` is the error that the template `path` is refused with under `vars`:
/// that it cannot be expanded, with the trimmed template, or else that its
/// expansion is relative, with the expansion.
pub open spec fn refuses(path: Seq<char>, vars: Map<Seq<char>, Seq<char>>, e: ValidationError)
    -> bool {
    match e {
        ValidationError::VariableName(found) => !expandable(trimmed(path)) && found@ == trimmed(
            path,
        ),
        ValidationError::RelativePath(found) => expandable(trimmed(path)) && relative(
            expansion(trimmed(path), vars),
        ) && found@ == expansion(trimmed(path), vars),
    }
}

impl Default for SavePath {
    fn default() -> (r: SavePath)
        ensures
            r@ == (SavePathView { id: Seq::empty(), path: Seq::empty(), expanded: Seq::empty() }),
    {
        SavePath { id: String::new(), path: String::new(), expanded: String::new() }
    }
}

impl SavePath {
    /// Resolves the template `path` for the place `id`. Fails if and only if
    /// the template cannot be expanded or the expanded path is relative.
    pub fn new(id: String, path: &str, vars: &Environment) -> (r: Result<SavePath, ValidationError>)
        ensures
            match r {
                Ok(save) => accepts(path@, vars@) && save@ == resolved(id@, path@, vars@),
                Err(e) => refuses(path@, vars@, e),
            },
    {
        let mut save = SavePath { id, path: String::new(), expanded: String::new() };
        match save.set_path(path, vars) {
            Ok(()) => Ok(save),
            Err(e) => Err(e),
        }
    }

    /// Resolves the stored template again, under `vars`, as
    /// [`SavePath::set_path`] does.
    pub fn update_path(&mut self, vars: &Environment) -> (r: Result<(), ValidationError>)
        ensures
            r is Ok <==> accepts(old(self)@.path, vars@),
            r matches Err(e) ==> refuses(old(self)@.path, vars@, e),
            expandable(trimmed(old(self)@.path)) ==> final(self)@ == resolved(
                old(self)@.id,
                old(self)@.path,
                vars@,
            ),
            !expandable(trimmed(old(self)@.path)) ==> *final(self) == *old(self),
    {
        let path = self.path.clone();
        self.set_path(path.as_str(), vars)
    }

    /// Replaces the template by `path`, trimmed, and resolves it under
    /// `vars`. A template that cannot be expanded is refused, and nothing
    /// changes. One whose expansion is relative is refused too, but the new
    /// template and its expansion are kept, as [`SavePath::settle`] keeps
    /// them.
    pub fn set_path(&mut self, path: &str, vars: &Environment) -> (r: Result<(), ValidationError>)
        ensures
            r is Ok <==> accepts(path@, vars@),
            r matches Err(e) ==> refuses(path@, vars@, e),
            expandable(trimmed(path@)) ==> final(self)@ == resolved(old(self)@.id, path@, vars@),
            !expandable(trimmed(path@)) ==> *final(self) == *old(self),
    {
        let template = trim(path);
        if !is_expandable(template.as_str()) {
            return Err(ValidationError::VariableName(template));
        }
        let expanded = expand(template.as_str(), vars);
        let is_relative = is_relative(expanded.as_str());
        self.settle(template, expanded, is_relative)
    }

    /// Takes `template` for the template and `expanded` for its expansion,
    /// which is relative or not as `is_relative` tells. A relative expansion
    /// is refused, but the two are kept all the same.
    pub fn settle(&mut self, template: String, expanded: String, is_relative: bool) -> (r: Result<
        (),
        ValidationError,
    >)
        ensures
            final(self)@ == (SavePathView {
                id: old(self)@.id,
                path: template@,
                expanded: expanded@,
            }),
            r is Err <==> is_relative,
            r matches Err(e) ==> e matches ValidationError::RelativePath(found) && found@
                == expanded@,
    {
        self.path = template;
        self.expanded = expanded;
        if is_relative {
            Err(ValidationError::RelativePath(self.expanded.clone()))
        } else {
            Ok(())
        }
    }

    /// Whether the template begins with a variable. One that does not is
    /// still accepted.
    pub fn starts_with_variable(&self) -> (r: bool)
        ensures
            r == (self@.path.len() > 0 && self@.path[0] == '$'),
    {
        self.path.as_str().unicode_len() > 0 && self.path.as_str().get_char(0) == '$'
    }
}

/// An application known to the catalog.
#[derive(Clone, Debug)]
pub struct Game {
    pub title: String,
    /// Identifies the application: two entries with one id describe the same
    /// application.
    pub id: String,
    /// Set on entries that the user added.
    pub custom: bool,
    pub saves: Vec<SavePath>,
}

/// What a [`Game`] holds, as plain values.
pub struct GameView {
    pub title: Seq<char>,
    pub id: Seq<char>,
    pub custom: bool,
    pub saves: Seq<SavePathView>,
}

impl View for Game {
    type V = GameView;

    open spec fn view(&self) -> GameView {
        GameView {
            title: self.title@,
            id: self.id@,
            custom: self.custom,
            saves: self.saves@.map_values(|s: SavePath| s@),
        }
    }
}

impl Default for Game {
    fn default() -> (r: Game)
        ensures
            r@ == (GameView {
                title: Seq::empty(),
                id: Seq::empty(),
                custom: false,
                saves: Seq::empty(),
            }),
    {
        let game = Game { title: String::new(), id: String::new(), custom: false, saves: Vec::new() };
        proof {
            assert(game@.saves =~= Seq::<SavePathView>::empty());
        }
        game
    }
}

/// Among entries of one id, `a` is kept in preference to `b`: a custom entry
/// before one that is not, then by title.
pub open spec fn prevails(custom_a: bool, title_a: Seq<char>, custom_b: bool, title_b: Seq<char>)
    -> bool {
    (custom_a && !custom_b) || (custom_a == custom_b && before(title_a, title_b))
}

/// The order of entries: by id, then as `prevails` says.
pub open spec fn precedes(a: GameView, b: GameView) -> bool {
    before(a.id, b.id) || (a.id == b.id && prevails(a.custom, a.title, b.custom, b.title))
}

/// How `a` compares with `b` in the order of entries.
pub open spec fn ordering_of(a: GameView, b: GameView) -> Ordering {
    if precedes(a, b) {
        Ordering::Less
    } else if precedes(b, a) {
        Ordering::Greater
    } else {
        Ordering::Equal
    }
}

/// The order of entries is strict: nothing precedes itself, and it is
/// transitive.
pub proof fn lemma_precedes_strict(a: GameView, b: GameView, c: GameView)
    ensures
        !precedes(a, a),
        precedes(a, b) && precedes(b, c) ==> precedes(a, c),
        !(precedes(a, b) && precedes(b, a)),
{
    crate::text::lemma_before_irreflexive(a.id);
    crate::text::lemma_before_irreflexive(a.title);
    crate::text::lemma_before_total(a.id, b.id);
    crate::text::lemma_before_total(a.title, b.title);
    if precedes(a, b) && precedes(b, c) {
        if before(a.id, b.id) && before(b.id, c.id) {
            crate::text::lemma_before_transitive(a.id, b.id, c.id);
        }
        if before(a.title, b.title) && before(b.title, c.title) {
            crate::text::lemma_before_transitive(a.title, b.title, c.title);
        }
    }
}

/// Entries that compare equal agree in id, custom flag and title.
pub proof fn lemma_ordering_equal(a: GameView, b: GameView)
    ensures
        ordering_of(a, b) == Ordering::Equal <==> a.id == b.id && a.custom == b.custom && a.title
            == b.title,
{
    crate::text::lemma_before_total(a.id, b.id);
    crate::text::lemma_before_total(a.title, b.title);
    crate::text::lemma_before_irreflexive(a.id);
    crate::text::lemma_before_irreflexive(a.title);
}

impl Game {
    /// Whether this entry comes strictly before `other` in the order of
    /// entries.
    pub fn precedes(&self, other: &Game) -> (r: bool)
        ensures
            r == precedes(self@, other@),
    {
        if lt(self.id.as_str(), other.id.as_str()) {
            true
        } else if self.id == other.id {
            if self.custom && !other.custom {
                true
            } else if self.custom == other.custom {
                lt(self.title.as_str(), other.title.as_str())
            } else {
                false
            }
        } else {
            false
        }
    }

    /// Compares this entry with `other` in the order of entries.
    pub fn cmp(&self, other: &Game) -> (r: Ordering)
        ensures
            r == ordering_of(self@, other@),
    {
        if self.precedes(other) {
            Ordering::Less
        } else if other.precedes(self) {
            Ordering::Greater
        } else {
            Ordering::Equal
        }
    }
}

impl PartialEq for Game {
    /// Entries are equal when their ids are.
    fn eq(&self, other: &Game) -> (r: bool) {
        self.id == other.id
    }
}

impl PartialEqSpecImpl for Game {
    open spec fn obeys_eq_spec() -> bool {
        true
    }

    open spec fn eq_spec(&self, other: &Game) -> bool {
        self.id@ == other.id@
    }
}

impl Eq for Game {

}

impl PartialOrd for Game {
    fn partial_cmp(&self, other: &Game) -> (r: Option<Ordering>) {
        Some(self.cmp(other))
    }
}

impl PartialOrdSpecImpl for Game {
    open spec fn obeys_partial_cmp_spec() -> bool {
        true
    }

    open spec fn partial_cmp_spec(&self, other: &Game) -> Option<Ordering> {
        Some(ordering_of(self@, other@))
    }
}

} // verus!
