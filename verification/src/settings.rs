//! What the user has configured.
use crate::errors::{InputError, StorageError};
use crate::game::Game;
use crate::paths::{is_relative, join, joined, relative};
use vstd::prelude::*;
use vstd::string::*;

verus! {

/// The user's settings.
#[derive(Debug)]
pub struct Settings {
    /// The directory under which relocated saves are kept.
    pub storage_path: String,
    /// Whether batch operations only report what they would do.
    pub dry_run: bool,
    /// The ids of the entries that batch operations pass over.
    pub ignored: Vec<String>,
}

/// The texts of a list of strings.
pub open spec fn texts(list: Seq<String>) -> Seq<Seq<char>> {
    list.map_values(|s: String| s@)
}

/// Tells the ids other than `id`.
pub open spec fn is_other_than(id: Seq<char>) -> spec_fn(Seq<char>) -> bool {
    |other: Seq<char>| other != id
}

impl Default for Settings {
    fn default() -> (r: Settings)
        ensures
            r.storage_path@ == Seq::<char>::empty(),
            !r.dry_run,
            r.ignored@.len() == 0,
    {
        Settings { storage_path: String::new(), dry_run: false, ignored: Vec::new() }
    }
}

impl Settings {
    /// Tells whether the storage path can be used: it must be set, and
    /// absolute.
    pub fn check_storage_path(&self) -> (r: Result<(), StorageError>)
        ensures
            match r {
                Ok(()) => self.storage_path@.len() > 0 && !relative(self.storage_path@),
                Err(StorageError::Unset) => self.storage_path@.len() == 0,
                Err(StorageError::NotAbsolute(path)) => {
                    &&& self.storage_path@.len() > 0
                    &&& relative(self.storage_path@)
                    &&& path@ == self.storage_path@
                },
            },
    {
        if self.storage_path.as_str().is_empty() {
            Err(StorageError::Unset)
        } else if is_relative(self.storage_path.as_str()) {
            Err(StorageError::NotAbsolute(self.storage_path.clone()))
        } else {
            Ok(())
        }
    }

    /// Sets the storage path to `path`, taken from `current_dir` where it is
    /// relative. An empty path is refused, and the settings stay as they
    /// are.
    pub fn set_storage_path(&mut self, path: &str, current_dir: &str) -> (r: Result<
        (),
        StorageError,
    >)
        ensures
            r is Err <==> path@.len() == 0,
            r matches Err(e) ==> e is Unset && *final(self) == *old(self),
            r is Ok ==> final(self).storage_path@ == if relative(path@) {
                joined(current_dir@, path@)
            } else {
                path@
            },
            final(self).dry_run == old(self).dry_run,
            final(self).ignored == old(self).ignored,
    {
        if path.is_empty() {
            return Err(StorageError::Unset);
        }
        self.storage_path = if is_relative(path) {
            join(current_dir, path)
        } else {
            path.to_owned()
        };
        Ok(())
    }

    /// Has batch operations pass over `game` from now on. An entry without an
    /// id is refused, and the settings stay as they are.
    pub fn ignore_game(&mut self, game: &Game) -> (r: Result<(), InputError>)
        ensures
            r is Err <==> game.id@.len() == 0,
            r matches Err(e) ==> e == InputError::EmptyId && *final(self) == *old(self),
            r is Ok ==> texts(final(self).ignored@) == texts(old(self).ignored@).push(game.id@),
            final(self).storage_path == old(self).storage_path,
            final(self).dry_run == old(self).dry_run,
    {
        if game.id.as_str().is_empty() {
            return Err(InputError::EmptyId);
        }
        proof {
            assert(texts(self.ignored@.push(game.id)) =~= texts(self.ignored@).push(game.id@));
        }
        self.ignored.push(game.id.clone());
        Ok(())
    }

    /// Has batch operations act on `game` again. An entry without an id is
    /// refused, and the settings stay as they are.
    pub fn heed_game(&mut self, game: &Game) -> (r: Result<(), InputError>)
        ensures
            r is Err <==> game.id@.len() == 0,
            r matches Err(e) ==> e == InputError::EmptyId && *final(self) == *old(self),
            r is Ok ==> texts(final(self).ignored@) == texts(old(self).ignored@).filter(
                is_other_than(game.id@),
            ),
            final(self).storage_path == old(self).storage_path,
            final(self).dry_run == old(self).dry_run,
    {
        if game.id.as_str().is_empty() {
            return Err(InputError::EmptyId);
        }
        let ghost was = texts(self.ignored@);
        let ghost keep = is_other_than(game.id@);
        let ghost done: int = 0;
        let mut i: usize = 0;
        proof {
            reveal(Seq::filter);
            assert(was.take(0) =~= Seq::<Seq<char>>::empty());
            assert(was.skip(0) =~= was);
        }
        while i < self.ignored.len()
            invariant
                self.storage_path == old(self).storage_path,
                self.dry_run == old(self).dry_run,
                was == texts(old(self).ignored@),
                keep == is_other_than(game.id@),
                0 <= done <= was.len(),
                i == was.take(done).filter(keep).len(),
                texts(self.ignored@) == was.take(done).filter(keep) + was.skip(done),
            decreases was.len() - done,
        {
            let ghost current = texts(self.ignored@);
            let ghost kept = was.take(done).filter(keep);
            proof {
                reveal(Seq::filter);
                assert(current[i as int] == was.skip(done)[0]);
                assert(was.take(done + 1).drop_last() =~= was.take(done));
                assert(was.take(done + 1).last() == was[done]);
                assert(was.take(done + 1).filter(keep) == if keep(was[done]) {
                    kept.push(was[done])
                } else {
                    kept
                });
            }
            if self.ignored[i] == game.id {
                self.ignored.remove(i);
                proof {
                    assert(!keep(was[done]));
                    assert(texts(self.ignored@) =~= current.remove(i as int));
                    assert(current.remove(i as int) =~= kept + was.skip(done + 1));
                }
            } else {
                proof {
                    assert(current =~= was.take(done + 1).filter(keep) + was.skip(done + 1));
                }
                i += 1;
            }
            proof {
                done = done + 1;
            }
        }
        proof {
            assert(was.take(done) =~= was);
            assert(was.skip(done) =~= Seq::<Seq<char>>::empty());
            assert(texts(self.ignored@) =~= was.filter(keep));
        }
        Ok(())
    }

    /// Whether batch operations pass over the entry with the id `id`.
    pub fn game_is_ignored(&self, id: &String) -> (r: bool)
        ensures
            r == texts(self.ignored@).contains(id@),
    {
        let mut i: usize = 0;
        while i < self.ignored.len()
            invariant
                i <= self.ignored@.len(),
                forall|k: int| 0 <= k < i ==> (#[trigger] texts(self.ignored@)[k]) != id@,
            decreases self.ignored@.len() - i,
        {
            if self.ignored[i] == *id {
                proof {
                    assert(texts(self.ignored@)[i as int] == id@);
                }
                return true;
            }
            i += 1;
        }
        false
    }
}

} // verus!
