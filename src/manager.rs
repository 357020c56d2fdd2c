use vstd::prelude::*;
use crate::env::Rkv;

verus! {

/// A registry of open environments as mathematics: each path, and the environment
/// open there.
pub struct ManagerModel {
    pub paths: Seq<Seq<char>>,
    pub envs: Seq<Rkv>,
}

/// A caller-owned registry of open environments, keyed by path, that opens each path
/// at most once.
pub struct Manager {
    paths: Vec<String>,
    envs: Vec<Rkv>,
}

/// No path occurs twice.
pub open spec fn paths_unique(paths: Seq<Seq<char>>) -> bool {
    forall|i: int, j: int| 0 <= i < j < paths.len() ==> #[trigger] paths[i] != #[trigger] paths[j]
}

/// The place of `p` among `paths`, if it is there.
pub open spec fn path_index(paths: Seq<Seq<char>>, p: Seq<char>) -> Option<int> {
    if exists|i: int| 0 <= i < paths.len() && #[trigger] paths[i] == p {
        Some(choose|i: int| 0 <= i < paths.len() && #[trigger] paths[i] == p)
    } else {
        None
    }
}

impl View for Manager {
    type V = ManagerModel;

    closed spec fn view(&self) -> ManagerModel {
        ManagerModel {
            paths: self.paths@.map_values(|p: String| p@),
            envs: self.envs@,
        }
    }
}

impl Manager {
    pub closed spec fn wf(&self) -> bool {
        &&& self.paths@.len() == self.envs@.len()
        &&& paths_unique(self@.paths)
        &&& forall|i: int| 0 <= i < self.envs@.len() ==> (#[trigger] self.envs@[i]).wf()
    }

    /// An empty registry.
    pub fn new() -> (r: Manager)
        ensures
            r.wf(),
            r@.paths.len() == 0,
            r@.envs.len() == 0,
    {
        let r = Manager { paths: Vec::new(), envs: Vec::new() };
        assert(r@.paths =~= Seq::<Seq<char>>::empty());
        r
    }

    /// The number of open environments.
    pub fn len(&self) -> (r: usize)
        requires
            self.wf(),
        ensures
            r == self@.paths.len(),
            r == self@.envs.len(),
    {
        self.envs.len()
    }

    /// The place of the environment open at `path`, if there is one.
    pub fn find(&self, path: &str) -> (r: Option<usize>)
        requires
            self.wf(),
        ensures
            match r {
                Some(i) => path_index(self@.paths, path@) == Some(i as int),
                None => path_index(self@.paths, path@) is None,
            },
    {
        let wanted = path.to_owned();
        let mut i: usize = 0;
        while i < self.paths.len()
            invariant
                self.wf(),
                i <= self@.paths.len(),
                wanted@ == path@,
                forall|j: int| 0 <= j < i ==> #[trigger] self@.paths[j] != path@,
            decreases self@.paths.len() - i,
        {
            assert(self@.paths[i as int] == self.paths@[i as int]@);
            if String::eq(&self.paths[i], &wanted) {
                proof {
                    let n = self@.paths;
                    let c = choose|j: int| 0 <= j < n.len() && #[trigger] n[j] == path@;
                    if c < i as int {
                        assert(n[c] != n[i as int]);
                    } else if c > i as int {
                        assert(n[i as int] != n[c]);
                    }
                }
                return Some(i);
            }
            i = i + 1;
        }
        None
    }

    /// The place of the environment for `path`, opening a new empty one only where
    /// none is open for that path yet.
    pub fn get_or_create(&mut self, path: &str) -> (r: usize)
        requires
            old(self).wf(),
        ensures
            final(self).wf(),
            match path_index(old(self)@.paths, path@) {
                Some(i) => r == i && final(self)@ == old(self)@,
                None => r == old(self)@.paths.len() && final(self)@.paths == old(self)@.paths.push(path@)
                    && final(self)@.envs.len() == old(self)@.envs.len() + 1
                    && final(self)@.envs.subrange(0, r as int) == old(self)@.envs
                    && final(self)@.envs[r as int]@.names.len() == 0
                    && !final(self)@.envs[r as int]@.writer,
            },
            path_index(final(self)@.paths, path@) == Some(r as int),
    {
        match self.find(path) {
            Some(i) => i,
            None => {
                let ghost before = self@;
                let i = self.paths.len();
                self.paths.push(path.to_owned());
                self.envs.push(Rkv::new());
                proof {
                    assert(self@.paths =~= before.paths.push(path@));
                    assert(self@.envs.subrange(0, i as int) =~= before.envs);
                    assert forall|a: int, b: int| 0 <= a < b < self@.paths.len()
                        implies #[trigger] self@.paths[a] != #[trigger] self@.paths[b] by {
                        if b == i as int {
                            assert(before.paths[a] != path@);
                        }
                    }
                    assert(self@.paths[i as int] == path@);
                    let c = choose|j: int| 0 <= j < self@.paths.len() && #[trigger] self@.paths[j] == path@;
                    if c < i as int {
                        assert(before.paths[c] == path@);
                    }
                }
                i
            },
        }
    }

    /// The environment at place `i`, to be used in place.
    pub fn env_mut(&mut self, i: usize) -> (r: &mut Rkv)
        requires
            old(self).wf(),
            i < old(self)@.envs.len(),
        ensures
            r.wf(),
            *r == old(self)@.envs[i as int],
            final(r).wf() ==> final(self).wf(),
            final(self)@ == (ManagerModel {
                paths: old(self)@.paths,
                envs: old(self)@.envs.update(i as int, *final(r)),
            }),
    {
        &mut self.envs[i]
    }
}

} // verus!
