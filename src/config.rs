use vstd::prelude::*;

verus! {

/// The text of each path in a list.
pub open spec fn texts(v: Seq<String>) -> Seq<Seq<char>> {
    v.map_values(|p: String| p@)
}

/// No path stands twice in the list.
pub open spec fn no_duplicates(s: Seq<Seq<char>>) -> bool {
    forall|i: int, j: int| 0 <= i < s.len() && 0 <= j < s.len() && i != j ==> s[i] != s[j]
}

/// The list after adding `p`: unchanged where `p` is already there, else `p`
/// at the end.
pub open spec fn with_path(s: Seq<Seq<char>>, p: Seq<char>) -> Seq<Seq<char>> {
    if s.contains(p) {
        s
    } else {
        s.push(p)
    }
}

/// The paths whose flag is set, in their order.
pub open spec fn kept(s: Seq<Seq<char>>, flags: Seq<bool>) -> Seq<Seq<char>>
    decreases s.len(),
{
    if s.len() == 0 {
        seq![]
    } else {
        let rest = kept(s.drop_last(), flags.take(s.len() - 1));
        if flags[s.len() - 1] {
            rest.push(s.last())
        } else {
            rest
        }
    }
}

/// Adding a path a second time changes nothing: after the first addition it
/// is present, so the second finds it, and it stands in the list exactly once.
pub proof fn lemma_add_twice(s: Seq<Seq<char>>, p: Seq<char>)
    requires
        no_duplicates(s),
    ensures
        with_path(s, p).contains(p),
        with_path(with_path(s, p), p) == with_path(s, p),
        no_duplicates(with_path(s, p)),
        exists|k: int| 0 <= k < with_path(s, p).len() && with_path(s, p)[k] == p,
        forall|j: int, k: int|
            0 <= j < with_path(s, p).len() && 0 <= k < with_path(s, p).len() && with_path(s, p)[j]
                == p && with_path(s, p)[k] == p ==> j == k,
{
    let w = with_path(s, p);
    if !s.contains(p) {
        assert(w[s.len() as int] == p);
        assert forall|i: int, j: int| 0 <= i < w.len() && 0 <= j < w.len() && i != j implies w[i]
            != w[j] by {
            if i < s.len() && j < s.len() {
            } else if i < s.len() {
                assert(s[i] != p);
            } else if j < s.len() {
                assert(s[j] != p);
            }
        }
    }
    assert(w.contains(p));
}

/// Removing the path at `i` moves every later path up one place, leaves the
/// earlier ones where they were, and leaves no gap.
pub proof fn lemma_remove_shifts(s: Seq<Seq<char>>, i: int)
    requires
        0 <= i < s.len(),
    ensures
        s.remove(i).len() == s.len() - 1,
        forall|j: int| 0 <= j < i ==> s.remove(i)[j] == s[j],
        forall|j: int| i <= j < s.len() - 1 ==> s.remove(i)[j] == s[j + 1],
{
}

/// The saved project paths, in the order they were added.
pub struct Config {
    pub paths: Vec<String>,
}

/// What adding a path did.
#[derive(Clone, Copy, Debug, PartialEq, Eq, Structural)]
pub enum AddOutcome {
    Added,
    AlreadyPresent,
}

/// Why a change to the saved paths was refused.
#[derive(Clone, Copy, Debug, PartialEq, Eq, Structural)]
pub enum ConfigError {
    /// A path to add does not exist.
    InvalidPath,
    /// An index to remove names no saved path.
    IndexOutOfRange,
    /// An index to remove is not a number.
    InvalidIndexFormat,
}

impl View for Config {
    type V = Seq<Seq<char>>;

    open spec fn view(&self) -> Seq<Seq<char>> {
        texts(self.paths@)
    }
}

impl Config {
    /// Paths are stored once each.
    pub open spec fn wf(&self) -> bool {
        no_duplicates(self@)
    }

    pub fn new() -> (r: Config)
        ensures
            r@ == Seq::<Seq<char>>::empty(),
            r.wf(),
    {
        let r = Config { paths: Vec::new() };
        assert(r@ =~= Seq::<Seq<char>>::empty());
        r
    }

    /// Whether `path` is saved, compared as exact text.
    pub fn contains_path(&self, path: &str) -> (r: bool)
        ensures
            r == self@.contains(path@),
    {
        let wanted = path.to_owned();
        let mut i: usize = 0;
        while i < self.paths.len()
            invariant
                wanted@ == path@,
                i <= self@.len(),
                self@.len() == self.paths@.len(),
                forall|j: int| 0 <= j < i ==> self@[j] != path@,
            decreases self.paths@.len() - i,
        {
            if self.paths[i] == wanted {
                assert(self@[i as int] == path@);
                return true;
            }
            i = i + 1;
        }
        false
    }

    /// Adds `path` at the end unless it is already saved.
    pub fn add_path(&mut self, path: String) -> (r: AddOutcome)
        ensures
            final(self)@ == with_path(old(self)@, path@),
            r == (if old(self)@.contains(path@) {
                AddOutcome::AlreadyPresent
            } else {
                AddOutcome::Added
            }),
            old(self).wf() ==> final(self).wf(),
    {
        if self.contains_path(path.as_str()) {
            return AddOutcome::AlreadyPresent;
        }
        let ghost before = self.paths@;
        self.paths.push(path);
        assert(self@ =~= texts(before).push(path@));
        AddOutcome::Added
    }

    /// Removes the path at `index` and hands it back.
    pub fn remove_path_by_index(&mut self, index: usize) -> (r: Result<String, ConfigError>)
        ensures
            index < old(self)@.len() ==> (r matches Ok(p) && p@ == old(self)@[index as int]
                && final(self)@ == old(self)@.remove(index as int)),
            index >= old(self)@.len() ==> r == Err::<String, ConfigError>(
                ConfigError::IndexOutOfRange,
            ) && final(self)@ == old(self)@,
            old(self).wf() ==> final(self).wf(),
    {
        if index >= self.paths.len() {
            return Err(ConfigError::IndexOutOfRange);
        }
        let ghost before = self.paths@;
        let removed = self.paths.remove(index);
        assert(self@ =~= texts(before).remove(index as int));
        Ok(removed)
    }
}

/// Relies on `Path::exists`: whether the path can be reached on disk now.
/// Nothing is promised of the answer.
#[verifier::external_body]
pub fn is_valid_path(path: &str) -> (r: bool) {
    std::path::Path::new(path).exists()
}

/// The saved paths whose flag in `exists` is set, in their order.
pub fn existing_paths(saved: &Vec<String>, exists: &Vec<bool>) -> (r: Vec<String>)
    requires
        exists@.len() == saved@.len(),
    ensures
        texts(r@) == kept(texts(saved@), exists@),
{
    let mut out: Vec<String> = Vec::new();
    let mut i: usize = 0;
    while i < saved.len()
        invariant
            i <= saved@.len(),
            exists@.len() == saved@.len(),
            texts(out@) == kept(texts(saved@).take(i as int), exists@.take(i as int)),
        decreases saved@.len() - i,
    {
        let ghost prev = out@;
        assert(texts(saved@).take(i + 1).drop_last() =~= texts(saved@).take(i as int));
        assert(exists@.take(i + 1).take(i as int) =~= exists@.take(i as int));
        if exists[i] {
            out.push(saved[i].clone());
            assert(texts(out@) =~= texts(prev).push(saved@[i as int]@));
        }
        i = i + 1;
    }
    assert(texts(saved@).take(i as int) =~= texts(saved@));
    assert(exists@.take(i as int) =~= exists@);
    out
}

/// The saved paths that exist on disk now, in their order.
pub fn get_paths(saved: &Vec<String>) -> (r: Vec<String>)
    ensures
        exists|flags: Seq<bool>|
            flags.len() == saved@.len() && texts(r@) == #[trigger] kept(texts(saved@), flags),
{
    let mut flags: Vec<bool> = Vec::new();
    let mut i: usize = 0;
    while i < saved.len()
        invariant
            i <= saved@.len(),
            flags@.len() == i,
        decreases saved@.len() - i,
    {
        flags.push(is_valid_path(saved[i].as_str()));
        i = i + 1;
    }
    existing_paths(saved, &flags)
}

} // verus!
