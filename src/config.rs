//! The converter: a Wine prefix and the drive table read from it.
use vstd::prelude::*;
use vstd::string::StrSliceExecFns;
use crate::cache::{
    first_match, is_first_match, lemma_first_match_exists, lemma_first_match_unique, slot_matches,
    table_of, DriveCache,
};
use crate::drive::{drive_index, drive_letter, index_to_drive, is_drive_letter, DRIVE_COUNT};
use crate::native::{is_absolute, ComponentView, NativePath};
use crate::wine_path::{
    is_plain_name, lemma_render_then_split, push_char, push_segments, render_components, segments_components, split_segments,
    stringify_path, WinePath, WinePathError,
};

verus! {

/// The Wine path of a native path: the first drive, in ascending letter
/// order, whose directory is the path or one of its ancestors, written as
/// `<letter>:`, then each remaining component behind a backslash.
pub open spec fn wine_path_of(
    drives: Seq<Option<Seq<ComponentView>>>,
    path: Seq<ComponentView>,
) -> Option<Seq<char>> {
    match first_match(drives, path) {
        Some(i) => Some(
            seq![drive_letter(i), ':'] + render_components(path.skip(drives[i]->0.len() as int)),
        ),
        None => None,
    }
}

/// A Wine path that names its drive: a letter, then a colon.
pub open spec fn has_drive_prefix(path: Seq<char>) -> bool {
    path.len() >= 2 && is_drive_letter(path[0]) && path[1] == ':'
}

/// The native path of a Wine path: the directory of its drive, then what
/// each backslash-separated segment after `<letter>:` becomes.
pub open spec fn native_path_of(
    drives: Seq<Option<Seq<ComponentView>>>,
    path: Seq<char>,
) -> Option<Seq<ComponentView>> {
    match drives[drive_index(path[0])] {
        Some(root) => Some(root + segments_components(split_segments(path.skip(2)))),
        None => None,
    }
}

/// Converting a native path to a Wine path and back gives the same path,
/// for a path under a mapped drive whose components past the root are plain
/// names, where every mapped directory is absolute.
pub proof fn lemma_round_trip(
    drives: Seq<Option<Seq<ComponentView>>>,
    path: Seq<ComponentView>,
    i: int,
)
    requires
        drives.len() == DRIVE_COUNT,
        forall|j: int| 0 <= j < drives.len() && #[trigger] drives[j] is Some ==> is_absolute(drives[j]->0),
        0 <= i < drives.len(),
        slot_matches(drives[i], path),
        forall|k: int| 1 <= k < path.len() ==> is_plain_name(#[trigger] path[k]),
    ensures
        wine_path_of(drives, path) is Some,
        has_drive_prefix(wine_path_of(drives, path)->0),
        native_path_of(drives, wine_path_of(drives, path)->0) == Some(path),
{
    lemma_first_match_exists(drives, path, i);
    let c = first_match(drives, path)->0;
    assert(is_first_match(drives, path, c));
    let dir = drives[c]->0;
    let rest = path.skip(dir.len() as int);
    assert(is_absolute(drives[c]->0));
    assert forall|k: int| 0 <= k < rest.len() implies is_plain_name(#[trigger] rest[k]) by {
        assert(rest[k] == path[k + dir.len()]);
    }
    lemma_render_then_split(rest);
    let w = seq![drive_letter(c), ':'] + render_components(rest);
    assert(w[0] == drive_letter(c));
    assert(w[1] == ':');
    assert(w.skip(2) =~= render_components(rest));
    assert(dir + rest =~= path);
}

/// A native path that is exactly the directory of the drive that matches it
/// first becomes that drive's bare `<letter>:`.
pub proof fn lemma_drive_root_is_bare(
    drives: Seq<Option<Seq<ComponentView>>>,
    path: Seq<ComponentView>,
    i: int,
)
    requires
        is_first_match(drives, path, i),
        drives[i] == Some(path),
    ensures
        wine_path_of(drives, path) == Some(seq![drive_letter(i), ':']),
{
    lemma_first_match_unique(drives, path, i);
    assert(path.skip(path.len() as int) =~= Seq::<ComponentView>::empty());
    assert(seq![drive_letter(i), ':'] + render_components(Seq::<ComponentView>::empty()) =~= seq![
        drive_letter(i),
        ':',
    ]);
}

/// A native path under no mapped directory has no Wine path.
pub proof fn lemma_unmapped_path_fails(
    drives: Seq<Option<Seq<ComponentView>>>,
    path: Seq<ComponentView>,
)
    requires
        forall|j: int| 0 <= j < drives.len() ==> !slot_matches(#[trigger] drives[j], path),
    ensures
        wine_path_of(drives, path) is None,
{
}

/// A Wine path whose drive letter is not mapped has no native path.
pub proof fn lemma_unmapped_letter_fails(drives: Seq<Option<Seq<ComponentView>>>, path: Seq<char>)
    requires
        has_drive_prefix(path),
        drives[drive_index(path[0])] is None,
    ensures
        native_path_of(drives, path) is None,
{
}

/// The prefix used when none is given: `.wine` under the home directory.
pub open spec fn default_prefix_of(home: Seq<ComponentView>) -> Seq<ComponentView> {
    home.push(ComponentView::Normal(seq!['.', 'w', 'i', 'n', 'e']))
}

/// `.wine` under the home directory.
pub fn default_wineprefix(home: NativePath) -> (r: NativePath)
    ensures
        r@ == default_prefix_of(home@),
{
    proof {
        reveal_strlit(".wine");
    }
    let mut prefix = home;
    prefix.push_normal(".wine");
    assert(".wine"@ =~= seq!['.', 'w', 'i', 'n', 'e']);
    prefix
}

/// The prefix to use: the one given explicitly, else the default under the
/// home directory; with neither, the prefix cannot be determined.
pub fn resolve_prefix(explicit: Option<NativePath>, home: Option<NativePath>) -> (r: Result<
    NativePath,
    WinePathError,
>)
    ensures
        explicit matches Some(p) ==> (r matches Ok(q) && q@ == p@),
        explicit is None && home is Some ==> (r matches Ok(q) && q@ == default_prefix_of(
            home->0@,
        )),
        explicit is None && home is None ==> r == Err::<NativePath, WinePathError>(
            WinePathError::PrefixNotFound,
        ),
{
    match explicit {
        Some(p) => Ok(p),
        None => match home {
            Some(h) => Ok(default_wineprefix(h)),
            None => Err(WinePathError::PrefixNotFound),
        },
    }
}

/// The converter: create one to do conversions. It keeps the prefix and the
/// drive table so that they are not read again for each conversion.
#[derive(Debug)]
pub struct WineConfig {
    prefix: NativePath,
    drive_cache: DriveCache,
}

impl WineConfig {
    /// The prefix, as components.
    pub closed spec fn prefix_view(&self) -> Seq<ComponentView> {
        self.prefix@
    }

    /// The drive table, one slot per letter.
    pub closed spec fn drives(&self) -> Seq<Option<Seq<ComponentView>>> {
        self.drive_cache@
    }

    /// A converter for `prefix`, whose drive links resolved to `resolved`
    /// (entry `i` for the letter of slot `i`, `None` where a link is missing
    /// or could not be resolved). Nothing checks that `prefix` is a Wine
    /// prefix: a wrong one gives empty drive mappings.
    pub fn from_prefix(prefix: NativePath, resolved: Vec<Option<NativePath>>) -> (r: WineConfig)
        ensures
            r.prefix_view() == prefix@,
            r.drives() == table_of(resolved@),
    {
        WineConfig { prefix, drive_cache: DriveCache::from_resolved(resolved) }
    }

    /// The Wine prefix.
    pub fn prefix(&self) -> (r: &NativePath)
        ensures
            r@ == self.prefix_view(),
    {
        &self.prefix
    }

    /// The drive table.
    pub fn drive_cache(&self) -> (r: &DriveCache)
        ensures
            r@ == self.drives(),
    {
        &self.drive_cache
    }

    /// The first drive, in ascending letter order, whose directory is `path`
    /// or one of its ancestors, as `<letter>:`, with the components past it.
    pub fn find_drive_root(&self, path: &NativePath) -> (r: Result<
        (String, NativePath),
        WinePathError,
    >)
        ensures
            first_match(self.drives(), path@) is None <==> r is Err,
            r matches Err(e) ==> e == WinePathError::NoDrive,
            r matches Ok((drive, rest)) ==> {
                let i = first_match(self.drives(), path@)->0;
                &&& drive@ == seq![drive_letter(i), ':']
                &&& rest@ == path@.skip(self.drives()[i]->0.len() as int)
            },
    {
        match self.drive_cache.find_root(path) {
            Some((index, remaining)) => {
                let mut drive = String::new();
                push_char(&mut drive, index_to_drive(index));
                push_char(&mut drive, ':');
                assert(drive@ =~= seq![drive_letter(index as int), ':']);
                Ok((drive, remaining))
            },
            None => Err(WinePathError::NoDrive),
        }
    }

    /// Converts a native path to a Wine path; fails with `NoDrive` where no
    /// drive's directory is the path or one of its ancestors.
    pub fn to_wine_path(&self, path: &NativePath) -> (r: Result<WinePath, WinePathError>)
        ensures
            wine_path_of(self.drives(), path@) is None <==> r is Err,
            r matches Err(e) ==> e == WinePathError::NoDrive,
            r matches Ok(w) ==> wine_path_of(self.drives(), path@) == Some(w.0@),
    {
        let (root, remaining) = self.find_drive_root(path)?;
        Ok(WinePath(stringify_path(root.as_str(), &remaining)))
    }

    /// Converts a Wine path to a native path: the directory of its drive,
    /// then each backslash-separated segment as one component, in order.
    /// Fails with `NoDrive` where the drive letter is not mapped.
    pub fn to_native_path(&self, path: &str) -> (r: Result<NativePath, WinePathError>)
        requires
            has_drive_prefix(path@),
        ensures
            native_path_of(self.drives(), path@) is None <==> r is Err,
            r matches Err(e) ==> e == WinePathError::NoDrive,
            r matches Ok(p) ==> native_path_of(self.drives(), path@) == Some(p@),
    {
        let drive_letter = path.get_char(0);
        match self.drive_cache.get(drive_letter) {
            Some(native_root) => {
                let mut native = native_root.clone();
                let n = path.unicode_len();
                let rest = path.substring_char(2, n);
                push_segments(&mut native, rest);
                Ok(native)
            },
            None => Err(WinePathError::NoDrive),
        }
    }
}

} // verus!
