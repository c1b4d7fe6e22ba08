//! The list of watched paths behind a file watcher: who asked to be told
//! about which path, which of them an event concerns, and when the watcher
//! of the operating system has to be told to start or to stop.
//!
//! A path is held as the sequence of its components, each component as its
//! bytes. Watching itself is not done here.

use vstd::prelude::*;

verus! {

/// The token that a watch was asked for with: events are handed out once
/// for each token that they concern.
#[derive(Clone, Copy, Debug, PartialEq, Eq, Structural)]
pub struct WatchToken(pub usize);

/// What kind of event the watcher of the operating system reports, as far as
/// the list cares.
#[derive(Clone, Copy, Debug, PartialEq, Eq, Structural)]
pub enum EventClass {
    /// Something at one path was created, removed or modified.
    Change,
    /// Something was renamed, from one path to another.
    Rename,
    /// Anything else.
    Other,
}

/// One path that someone asked to be told about.
pub struct Watchee {
    /// The components of the path.
    pub path: Vec<Vec<u8>>,
    /// Whether everything below the path is watched too.
    pub recursive: bool,
    /// Whom to tell.
    pub token: WatchToken,
}

/// The watched paths, in the order in which they were asked for.
pub struct WatchList {
    watchees: Vec<Watchee>,
}

/// What taking a path off the list asks of the watcher of the operating
/// system.
pub struct Unwatched {
    /// Where in the list the entry was.
    pub index: usize,
    /// Whether no entry for that path is left, so that watching it stops.
    pub stop: bool,
    /// The entries left, by their place in the list, that lie at or below
    /// the path and were covered by the entry taken off if that was
    /// recursive: each has to be watched again in its own right.
    pub rewatch: Vec<usize>,
}

/// What a watched path is, as plain values.
pub ghost struct WatcheeView {
    pub path: Seq<Seq<u8>>,
    pub recursive: bool,
    pub token: WatchToken,
}

/// The components of a path as plain values.
pub open spec fn components(path: &Vec<Vec<u8>>) -> Seq<Seq<u8>> {
    path@.map_values(|component: Vec<u8>| component@)
}

/// The paths of a list of paths as plain values.
pub open spec fn all_components(paths: &Vec<Vec<Vec<u8>>>) -> Seq<Seq<Seq<u8>>> {
    paths@.map_values(|path: Vec<Vec<u8>>| components(&path))
}

/// Whether `path` begins with all the components of `base`.
pub open spec fn begins_with(path: Seq<Seq<u8>>, base: Seq<Seq<u8>>) -> bool {
    base.len() <= path.len() && path.subrange(0, base.len() as int) == base
}

/// Whether an event at `path` concerns the watched path `watchee`: the path
/// has to lie at or below the watched one, and, unless everything below is
/// watched, be the watched path itself or lie directly in it.
pub open spec fn concerns(watchee: WatcheeView, path: Seq<Seq<u8>>) -> bool {
    begins_with(path, watchee.path) && (watchee.recursive || path.len() <= watchee.path.len() + 1)
}

/// Whether an event of the given class at the given paths is one that the
/// watched path `watchee` is told about. A change has to come with one path,
/// which has to concern the watched path; a rename with two, one of which
/// has to. Nothing else is told.
pub open spec fn wanted(watchee: WatcheeView, class: EventClass, paths: Seq<Seq<Seq<u8>>>) -> bool {
    match class {
        EventClass::Change => paths.len() == 1 && concerns(watchee, paths[0]),
        EventClass::Rename => paths.len() == 2 && (concerns(watchee, paths[0]) || concerns(
            watchee,
            paths[1],
        )),
        EventClass::Other => false,
    }
}

/// The places below `n` in `list`, in rising order, of the entries that are
/// told about an event of the given class at the given paths.
pub open spec fn told(
    list: Seq<WatcheeView>,
    class: EventClass,
    paths: Seq<Seq<Seq<u8>>>,
    n: int,
) -> Seq<int>
    decreases n,
{
    if n <= 0 {
        Seq::<int>::empty()
    } else if wanted(list[n - 1], class, paths) {
        told(list, class, paths, n - 1).push(n - 1)
    } else {
        told(list, class, paths, n - 1)
    }
}

/// The places below `n` in `list`, in rising order, of the entries whose
/// path lies at or below `base`.
pub open spec fn below(list: Seq<WatcheeView>, base: Seq<Seq<u8>>, n: int) -> Seq<int>
    decreases n,
{
    if n <= 0 {
        Seq::<int>::empty()
    } else if begins_with(list[n - 1].path, base) {
        below(list, base, n - 1).push(n - 1)
    } else {
        below(list, base, n - 1)
    }
}

/// Whether some entry of `list` is for the path `path`.
pub open spec fn lists_path(list: Seq<WatcheeView>, path: Seq<Seq<u8>>) -> bool {
    exists|i: int| 0 <= i < list.len() && #[trigger] list[i].path == path
}

/// Whether the entry at place `i` of `list` is the first one for the given
/// token and path.
pub open spec fn first_match(
    list: Seq<WatcheeView>,
    path: Seq<Seq<u8>>,
    token: WatchToken,
    i: int,
) -> bool {
    &&& 0 <= i < list.len()
    &&& list[i].token == token
    &&& list[i].path == path
    &&& forall|j: int| 0 <= j < i ==> !(#[trigger] list[j].token == token && list[j].path == path)
}

impl View for Watchee {
    type V = WatcheeView;

    open spec fn view(&self) -> WatcheeView {
        WatcheeView { path: components(&self.path), recursive: self.recursive, token: self.token }
    }
}

impl View for WatchList {
    type V = Seq<WatcheeView>;

    closed spec fn view(&self) -> Seq<WatcheeView> {
        self.watchees@.map_values(|watchee: Watchee| watchee@)
    }
}

/// Whether the two byte strings are the same.
pub fn same_bytes(a: &Vec<u8>, b: &Vec<u8>) -> (same: bool)
    ensures
        same == (a@ == b@),
{
    if a.len() != b.len() {
        return false;
    }
    let mut i: usize = 0;
    while i < a.len()
        invariant
            i <= a@.len(),
            a@.len() == b@.len(),
            a@.subrange(0, i as int) == b@.subrange(0, i as int),
        decreases a@.len() - i,
    {
        if a[i] != b[i] {
            return false;
        }
        proof {
            assert(a@.subrange(0, i + 1) =~= a@.subrange(0, i as int).push(a@[i as int]));
            assert(b@.subrange(0, i + 1) =~= b@.subrange(0, i as int).push(b@[i as int]));
        }
        i = i + 1;
    }
    proof {
        assert(a@ =~= a@.subrange(0, a@.len() as int));
        assert(b@ =~= b@.subrange(0, b@.len() as int));
    }
    true
}

/// Whether `path` begins with all the components of `base`.
pub fn path_begins_with(path: &Vec<Vec<u8>>, base: &Vec<Vec<u8>>) -> (begins: bool)
    ensures
        begins == begins_with(components(path), components(base)),
{
    if base.len() > path.len() {
        return false;
    }
    let ghost p = components(path);
    let ghost b = components(base);
    let mut i: usize = 0;
    while i < base.len()
        invariant
            i <= base@.len() <= path@.len(),
            p == components(path),
            b == components(base),
            p.subrange(0, i as int) == b.subrange(0, i as int),
        decreases base@.len() - i,
    {
        if !same_bytes(&path[i], &base[i]) {
            proof {
                assert(p.subrange(0, b.len() as int)[i as int] == p[i as int]);
            }
            return false;
        }
        proof {
            assert(p.subrange(0, i + 1) =~= p.subrange(0, i as int).push(p[i as int]));
            assert(b.subrange(0, i + 1) =~= b.subrange(0, i as int).push(b[i as int]));
        }
        i = i + 1;
    }
    proof {
        assert(b =~= b.subrange(0, b.len() as int));
    }
    true
}

/// Whether the two paths have the same components.
pub fn same_path(a: &Vec<Vec<u8>>, b: &Vec<Vec<u8>>) -> (same: bool)
    ensures
        same == (components(a) == components(b)),
{
    let same = a.len() == b.len() && path_begins_with(a, b);
    proof {
        let p = components(a);
        let q = components(b);
        assert(p.len() == a@.len() && q.len() == b@.len());
        if a.len() == b.len() {
            assert(p.subrange(0, q.len() as int) =~= p);
        }
    }
    same
}

impl Watchee {
    /// Whether an event at `path` concerns this watched path.
    pub fn applies_to_path(&self, path: &Vec<Vec<u8>>) -> (applies: bool)
        ensures
            applies == concerns(self@, components(path)),
    {
        if path_begins_with(path, &self.path) {
            self.recursive || path.len() - self.path.len() <= 1
        } else {
            false
        }
    }

    /// Whether this watched path is told about an event of the given class
    /// at the given paths.
    pub fn wants_event(&self, class: EventClass, paths: &Vec<Vec<Vec<u8>>>) -> (wants: bool)
        ensures
            wants == wanted(self@, class, all_components(paths)),
    {
        match class {
            EventClass::Change => {
                if paths.len() == 1 {
                    self.applies_to_path(&paths[0])
                } else {
                    false
                }
            },
            EventClass::Rename => {
                if paths.len() == 2 {
                    // the first path is where it was, the second where it is now
                    self.applies_to_path(&paths[0]) || self.applies_to_path(&paths[1])
                } else {
                    false
                }
            },
            EventClass::Other => false,
        }
    }
}

impl WatchList {
    /// A list without entries.
    pub fn new() -> (list: Self)
        ensures
            list@ == Seq::<WatcheeView>::empty(),
    {
        let list = WatchList { watchees: Vec::new() };
        proof {
            assert(list@ =~= Seq::<WatcheeView>::empty());
        }
        list
    }

    /// The number of entries.
    pub fn len(&self) -> (count: usize)
        ensures
            count == self@.len(),
    {
        self.watchees.len()
    }

    /// The entry at the given place, if there is one.
    pub fn get(&self, index: usize) -> (watchee: Option<&Watchee>)
        ensures
            index >= self@.len() ==> watchee is None,
            index < self@.len() ==> (watchee matches Some(found) && found@ == self@[index as int]),
    {
        if index < self.watchees.len() {
            Some(&self.watchees[index])
        } else {
            None
        }
    }

    /// Whether some entry is for the given path.
    pub fn is_watching(&self, path: &Vec<Vec<u8>>) -> (watching: bool)
        ensures
            watching == lists_path(self@, components(path)),
    {
        let mut i: usize = 0;
        while i < self.watchees.len()
            invariant
                i <= self@.len(),
                self@.len() == self.watchees@.len(),
                forall|j: int| 0 <= j < i ==> (#[trigger] self@[j]).path != components(path),
            decreases self@.len() - i,
        {
            if same_path(&self.watchees[i].path, path) {
                assert(self@[i as int].path == components(path));
                return true;
            }
            i = i + 1;
        }
        false
    }

    /// Adds an entry for the given path and token at the end of the list,
    /// and says whether the path was not listed before, so that watching it
    /// has to start.
    pub fn watch(&mut self, path: Vec<Vec<u8>>, recursive: bool, token: WatchToken) -> (start:
        bool)
        ensures
            final(self)@ == old(self)@.push(
                WatcheeView { path: components(&path), recursive, token },
            ),
            start == !lists_path(old(self)@, components(&path)),
    {
        let start = !self.is_watching(&path);
        let watchee = Watchee { path, recursive, token };
        self.watchees.push(watchee);
        proof {
            assert(self@ =~= old(self)@.push(watchee@));
        }
        start
    }

    /// The places of the entries that are told about an event of the given
    /// class at the given paths, in the order of the list.
    pub fn tell(&self, class: EventClass, paths: &Vec<Vec<Vec<u8>>>) -> (places: Vec<usize>)
        ensures
            places@.map_values(|place: usize| place as int) == told(
                self@,
                class,
                all_components(paths),
                self@.len() as int,
            ),
    {
        let mut places: Vec<usize> = Vec::new();
        let mut i: usize = 0;
        proof {
            assert(places@.map_values(|place: usize| place as int) =~= Seq::<int>::empty());
        }
        while i < self.watchees.len()
            invariant
                i <= self@.len(),
                self@.len() == self.watchees@.len(),
                places@.map_values(|place: usize| place as int) == told(
                    self@,
                    class,
                    all_components(paths),
                    i as int,
                ),
            decreases self@.len() - i,
        {
            let ghost so_far = places@.map_values(|place: usize| place as int);
            if self.watchees[i].wants_event(class, paths) {
                places.push(i);
                proof {
                    assert(places@.map_values(|place: usize| place as int) =~= so_far.push(
                        i as int,
                    ));
                }
            }
            i = i + 1;
        }
        places
    }

    /// The place of the first entry for the given token and path, if there
    /// is one.
    fn find(&self, path: &Vec<Vec<u8>>, token: WatchToken) -> (place: Option<usize>)
        ensures
            match place {
                Some(i) => first_match(self@, components(path), token, i as int),
                None => forall|j: int|
                    0 <= j < self@.len() ==> !(#[trigger] self@[j].token == token && self@[j].path
                        == components(path)),
            },
    {
        let mut i: usize = 0;
        while i < self.watchees.len()
            invariant
                i <= self@.len(),
                self@.len() == self.watchees@.len(),
                forall|j: int|
                    0 <= j < i ==> !(#[trigger] self@[j].token == token && self@[j].path
                        == components(path)),
            decreases self@.len() - i,
        {
            if self.watchees[i].token.0 == token.0 && same_path(&self.watchees[i].path, path) {
                return Some(i);
            }
            i = i + 1;
        }
        None
    }

    /// The places of the entries whose path lies at or below `base`, in the
    /// order of the list.
    fn covered(&self, base: &Vec<Vec<u8>>) -> (places: Vec<usize>)
        ensures
            places@.map_values(|place: usize| place as int) == below(
                self@,
                components(base),
                self@.len() as int,
            ),
    {
        let mut places: Vec<usize> = Vec::new();
        let mut i: usize = 0;
        proof {
            assert(places@.map_values(|place: usize| place as int) =~= Seq::<int>::empty());
        }
        while i < self.watchees.len()
            invariant
                i <= self@.len(),
                self@.len() == self.watchees@.len(),
                places@.map_values(|place: usize| place as int) == below(
                    self@,
                    components(base),
                    i as int,
                ),
            decreases self@.len() - i,
        {
            let ghost so_far = places@.map_values(|place: usize| place as int);
            if path_begins_with(&self.watchees[i].path, base) {
                places.push(i);
                proof {
                    assert(places@.map_values(|place: usize| place as int) =~= so_far.push(
                        i as int,
                    ));
                }
            }
            i = i + 1;
        }
        places
    }

    /// Takes the first entry for the given token and path off the list,
    /// if there is one, and says what that asks of the watcher of the
    /// operating system: to stop watching the path if no entry for it is left,
    /// and, if the entry was recursive, to watch again every path left on the
    /// list that lies at or below it.
    pub fn unwatch(&mut self, path: &Vec<Vec<u8>>, token: WatchToken) -> (unwatched: Option<
        Unwatched,
    >)
        ensures
            match unwatched {
                Some(outcome) => {
                    &&& first_match(old(self)@, components(path), token, outcome.index as int)
                    &&& final(self)@ == old(self)@.remove(outcome.index as int)
                    &&& outcome.stop == !lists_path(final(self)@, components(path))
                    &&& outcome.rewatch@.map_values(|place: usize| place as int) == if old(
                        self,
                    )@[outcome.index as int].recursive {
                        below(final(self)@, components(path), final(self)@.len() as int)
                    } else {
                        Seq::<int>::empty()
                    }
                },
                None => {
                    &&& final(self)@ == old(self)@
                    &&& forall|j: int|
                        0 <= j < old(self)@.len() ==> !(#[trigger] old(self)@[j].token == token
                            && old(self)@[j].path == components(path))
                },
            },
    {
        match self.find(path, token) {
            Some(index) => {
                let removed = self.watchees.remove(index);
                proof {
                    assert(self@ =~= old(self)@.remove(index as int));
                    assert(removed@ == old(self)@[index as int]);
                }
                let stop = !self.is_watching(&removed.path);
                let rewatch = if removed.recursive {
                    self.covered(&removed.path)
                } else {
                    let none: Vec<usize> = Vec::new();
                    proof {
                        assert(none@.map_values(|place: usize| place as int) =~= Seq::<
                            int,
                        >::empty());
                    }
                    none
                };
                Some(Unwatched { index, stop, rewatch })
            },
            None => None,
        }
    }
}

} // verus!
