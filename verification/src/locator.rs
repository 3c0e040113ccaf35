//! Where the Outlook executable is registered, looked up at most once.

use vstd::prelude::*;

verus! {

/// The file name of the executable, under which its path is registered.
pub const EXECUTABLE_NAME: &'static str = "OUTLOOK.EXE";

/// The registry key, below `HKEY_LOCAL_MACHINE`, whose default value is the
/// path of the executable.
pub const APP_PATH_SUBKEY: &'static str =
    "SOFTWARE\\Microsoft\\Windows\\CurrentVersion\\App Paths\\OUTLOOK.EXE";

/// What a locator remembers: nothing yet, or the answer of its one lookup,
/// which is a path or the absence of one.
pub type Cache = Option<Option<Seq<char>>>;

/// How one call of [`ExecutableLocator::locate`] relates the cache before
/// it, its answer and the cache after it: the answer is remembered, and a
/// remembered answer is the one given.
pub open spec fn locates(before: Cache, answer: Option<Seq<char>>, after: Cache) -> bool {
    &&& after == Some(answer)
    &&& before matches Some(cached) ==> answer == cached
}

/// Two calls in a row give the same answer and leave the same cache, and
/// after the first the locator has resolved, so that the second asks nothing
/// of its lookup.
pub proof fn lemma_locate_is_idempotent(
    start: Cache,
    first: Option<Seq<char>>,
    between: Cache,
    second: Option<Seq<char>>,
    end: Cache,
)
    requires
        locates(start, first, between),
        locates(between, second, end),
    ensures
        between is Some,
        second == first,
        end == between,
{
}

/// Remembers where the executable is, once it has been looked up.
#[derive(Clone, Debug, PartialEq, Eq)]
pub struct ExecutableLocator {
    cache: Option<Option<String>>,
}

impl View for ExecutableLocator {
    type V = Cache;

    closed spec fn view(&self) -> Cache {
        self.cache.deep_view()
    }
}

impl Default for ExecutableLocator {
    fn default() -> (res: Self)
        ensures
            res@ is None,
    {
        ExecutableLocator::new()
    }
}

impl ExecutableLocator {
    /// A locator that has not looked anything up yet.
    pub fn new() -> (res: Self)
        ensures
            res@ is None,
    {
        ExecutableLocator { cache: None }
    }

    /// Whether the lookup has been made.
    pub fn is_resolved(&self) -> (res: bool)
        ensures
            res == (self@ is Some),
    {
        self.cache.is_some()
    }

    /// The path of the executable, or `None` if none is registered.
    ///
    /// The first call makes the lookup and remembers what it gave, a path or
    /// the absence of one. Every later call answers from memory and does not
    /// call `lookup`.
    pub fn locate<F>(&mut self, lookup: F) -> (res: Option<String>) where
        F: FnOnce() -> Option<String>,

        requires
            old(self)@ is None ==> call_requires(lookup, ()),
        ensures
            locates(old(self)@, res.deep_view(), final(self)@),
            old(self)@ is None ==> call_ensures(lookup, (), res),
    {
        match &self.cache {
            Some(Some(path)) => Some(path.clone()),
            Some(None) => None,
            None => {
                let found = lookup();
                let answer = match &found {
                    Some(path) => Some(path.clone()),
                    None => None,
                };
                self.cache = Some(found);
                answer
            },
        }
    }
}

} // verus!
