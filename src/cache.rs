//! The table of drive mappings: one slot per drive letter, each empty or
//! holding the native directory behind that drive.
use vstd::prelude::*;
use crate::drive::{
    drive_index, drive_letter, drive_to_index, index_to_drive, is_drive_letter, DRIVE_COUNT,
};
use crate::native::{has_prefix, Component, ComponentView, NativePath};

verus! {

/// What a slot holds: the components of its directory, if any.
pub open spec fn slot_view(slot: Option<NativePath>) -> Option<Seq<ComponentView>> {
    match slot {
        Some(p) => Some(p@),
        None => None,
    }
}

/// The table a list of resolved directories gives: slot `i` takes entry `i`,
/// slots past the end of the list stay empty.
pub open spec fn table_of(resolved: Seq<Option<NativePath>>) -> Seq<Option<Seq<ComponentView>>> {
    Seq::new(
        DRIVE_COUNT as nat,
        |i: int|
            if i < resolved.len() {
                slot_view(resolved[i])
            } else {
                None
            },
    )
}

/// A slot takes part in matching `path` when it holds a directory that is
/// `path` itself or one of its ancestors.
pub open spec fn slot_matches(slot: Option<Seq<ComponentView>>, path: Seq<ComponentView>) -> bool {
    match slot {
        Some(dir) => has_prefix(path, dir),
        None => false,
    }
}

/// Slot `i` is the first, in ascending letter order, that matches `path`.
pub open spec fn is_first_match(
    drives: Seq<Option<Seq<ComponentView>>>,
    path: Seq<ComponentView>,
    i: int,
) -> bool {
    &&& 0 <= i < drives.len()
    &&& slot_matches(drives[i], path)
    &&& forall|j: int| 0 <= j < i ==> !slot_matches(#[trigger] drives[j], path)
}

/// The first slot, in ascending letter order, that matches `path`.
pub open spec fn first_match(drives: Seq<Option<Seq<ComponentView>>>, path: Seq<ComponentView>) -> Option<int> {
    if exists|i: int| is_first_match(drives, path, i) {
        Some(choose|i: int| is_first_match(drives, path, i))
    } else {
        None
    }
}

/// At most one slot is the first match.
pub proof fn lemma_first_match_unique(
    drives: Seq<Option<Seq<ComponentView>>>,
    path: Seq<ComponentView>,
    i: int,
)
    requires
        is_first_match(drives, path, i),
    ensures
        first_match(drives, path) == Some(i),
{
    let k = choose|k: int| is_first_match(drives, path, k);
    if k < i {
        assert(!slot_matches(drives[k], path));
    } else if i < k {
        assert(!slot_matches(drives[i], path));
    }
}

/// Where some slot matches `path`, a first one does.
pub proof fn lemma_first_match_exists(
    drives: Seq<Option<Seq<ComponentView>>>,
    path: Seq<ComponentView>,
    i: int,
)
    requires
        0 <= i < drives.len(),
        slot_matches(drives[i], path),
    ensures
        first_match(drives, path) is Some,
    decreases i,
{
    if exists|j: int| 0 <= j < i && slot_matches(#[trigger] drives[j], path) {
        let j = choose|j: int| 0 <= j < i && slot_matches(#[trigger] drives[j], path);
        lemma_first_match_exists(drives, path, j);
    } else {
        lemma_first_match_unique(drives, path, i);
    }
}

/// Every listed pair comes from a populated slot: its letter names the slot
/// and its directory is the slot's.
pub proof fn lemma_populated_from_slots(drives: Seq<Option<Seq<ComponentView>>>)
    ensures
        forall|k: int|
            0 <= k < populated(drives).len() ==> exists|j: int|
                0 <= j < drives.len() && drives[j] == Some(#[trigger] populated(drives)[k].1)
                    && populated(drives)[k].0 == drive_letter(j),
    decreases drives.len(),
{
    if drives.len() == 0 {
        assert(populated(drives).len() == 0);
    } else {
        let prev = drives.drop_last();
        lemma_populated_from_slots(prev);
        assert forall|k: int| 0 <= k < populated(drives).len() implies exists|j: int|
            0 <= j < drives.len() && drives[j] == Some(#[trigger] populated(drives)[k].1)
                && populated(drives)[k].0 == drive_letter(j) by {
            if k < populated(prev).len() {
                let j = choose|j: int|
                    0 <= j < prev.len() && prev[j] == Some(#[trigger] populated(prev)[k].1)
                        && populated(prev)[k].0 == drive_letter(j);
                assert(drives[j] == prev[j]);
            } else {
                assert(drives[drives.len() - 1] == Some(populated(drives)[k].1));
            }
        }
    }
}

/// An empty slot never takes part: no path matches it, and the list of
/// mappings leaves its letter out.
pub proof fn lemma_empty_slot_excluded(
    drives: Seq<Option<Seq<ComponentView>>>,
    path: Seq<ComponentView>,
    i: int,
)
    requires
        drives.len() <= DRIVE_COUNT,
        0 <= i < drives.len(),
        drives[i] is None,
    ensures
        first_match(drives, path) != Some(i),
        forall|k: int| 0 <= k < populated(drives).len() ==> #[trigger] populated(drives)[k].0 != drive_letter(i),
{
    if first_match(drives, path) == Some(i) {
        assert(is_first_match(drives, path, choose|k: int| is_first_match(drives, path, k)));
    }
    lemma_populated_from_slots(drives);
    assert forall|k: int| 0 <= k < populated(drives).len() implies #[trigger] populated(drives)[k].0 != drive_letter(i) by {
        let j = choose|j: int|
            0 <= j < drives.len() && drives[j] == Some(#[trigger] populated(drives)[k].1)
                && populated(drives)[k].0 == drive_letter(j);
        assert(j != i);
    }
}

/// The populated slots as (letter, directory) pairs, in ascending letter order.
pub open spec fn populated(drives: Seq<Option<Seq<ComponentView>>>) -> Seq<(char, Seq<ComponentView>)>
    decreases drives.len(),
{
    if drives.len() == 0 {
        Seq::empty()
    } else {
        let prev = populated(drives.drop_last());
        match drives.last() {
            Some(dir) => prev.push((drive_letter(drives.len() - 1), dir)),
            None => prev,
        }
    }
}

/// What a list of (letter, directory) pairs stands for.
pub open spec fn mappings_view(v: Seq<(char, &NativePath)>) -> Seq<(char, Seq<ComponentView>)> {
    v.map_values(|e: (char, &NativePath)| (e.0, e.1@))
}

/// The drive table.
#[derive(Debug)]
pub struct DriveCache {
    drives: Vec<Option<NativePath>>,
}

impl View for DriveCache {
    type V = Seq<Option<Seq<ComponentView>>>;

    closed spec fn view(&self) -> Seq<Option<Seq<ComponentView>>> {
        self.drives@.map_values(|s: Option<NativePath>| slot_view(s))
    }
}

impl DriveCache {
    #[verifier::type_invariant]
    closed spec fn inv(&self) -> bool {
        self.drives@.len() == DRIVE_COUNT
    }

    /// The table has one slot per drive letter.
    pub fn slot_count(&self) -> (r: usize)
        ensures
            r == self@.len(),
            r == DRIVE_COUNT,
    {
        proof {
            use_type_invariant(self);
        }
        self.drives.len()
    }

    /// Builds the table from the directories that the drive links resolved
    /// to, slot `i` from entry `i`; a missing entry leaves its slot empty.
    pub fn from_resolved(resolved: Vec<Option<NativePath>>) -> (r: DriveCache)
        ensures
            r@ == table_of(resolved@),
    {
        let mut drives: Vec<Option<NativePath>> = Vec::new();
        let n = resolved.len();
        let mut rest = resolved;
        let ghost all = rest@;
        while drives.len() < DRIVE_COUNT && drives.len() < n
            invariant
                drives@.len() <= DRIVE_COUNT,
                drives@.len() <= all.len(),
                n == all.len(),
                rest@ == all.skip(drives@.len() as int),
                forall|k: int|
                    0 <= k < drives@.len() ==> slot_view(#[trigger] drives@[k]) == slot_view(
                        all[k],
                    ),
            decreases all.len() - drives@.len(),
        {
            let ghost n = drives@.len() as int;
            let slot = rest.remove(0);
            assert(slot == all[n]);
            drives.push(slot);
            assert(rest@ =~= all.skip(drives@.len() as int));
        }
        while drives.len() < DRIVE_COUNT
            invariant
                drives@.len() <= DRIVE_COUNT,
                drives@.len() < DRIVE_COUNT ==> drives@.len() >= all.len(),
                forall|k: int|
                    0 <= k < drives@.len() ==> slot_view(#[trigger] drives@[k]) == (if k
                        < all.len() {
                        slot_view(all[k])
                    } else {
                        None
                    }),
            decreases DRIVE_COUNT - drives@.len(),
        {
            drives.push(None);
        }
        let r = DriveCache { drives };
        assert(r@ =~= table_of(all));
        r
    }

    /// The directory behind a drive letter, case ignored.
    pub fn get(&self, drive_letter: char) -> (r: Option<&NativePath>)
        requires
            is_drive_letter(drive_letter),
        ensures
            self@.len() == DRIVE_COUNT,
            r matches Some(p) ==> self@[drive_index(drive_letter)] == Some(p@),
            r is None ==> self@[drive_index(drive_letter)] is None,
    {
        proof {
            use_type_invariant(self);
        }
        let i = drive_to_index(drive_letter);
        match &self.drives[i] {
            Some(p) => Some(p),
            None => None,
        }
    }

    /// The populated slots as (letter, directory) pairs, in ascending letter
    /// order; empty slots are left out.
    pub fn mappings(&self) -> (r: Vec<(char, &NativePath)>)
        ensures
            mappings_view(r@) == populated(self@),
    {
        proof {
            use_type_invariant(self);
        }
        let mut out: Vec<(char, &NativePath)> = Vec::new();
        let mut i: usize = 0;
        while i < self.drives.len()
            invariant
                i <= self.drives@.len(),
                self.drives@.len() == DRIVE_COUNT,
                mappings_view(out@) == populated(self@.take(i as int)),
            decreases self.drives@.len() - i,
        {
            assert(self@.take(i + 1).drop_last() =~= self@.take(i as int));
            match &self.drives[i] {
                Some(p) => {
                    out.push((index_to_drive(i), p));
                },
                None => {},
            }
            i = i + 1;
            assert(mappings_view(out@) =~= populated(self@.take(i as int)));
        }
        assert(self@.take(i as int) =~= self@);
        out
    }

    /// The first slot, in ascending letter order, whose directory is `path`
    /// or one of its ancestors, with the components of `path` past it.
    pub fn find_root(&self, path: &NativePath) -> (r: Option<(usize, NativePath)>)
        ensures
            self@.len() == DRIVE_COUNT,
            r matches Some((i, rest)) ==> {
                &&& i < DRIVE_COUNT
                &&& first_match(self@, path@) == Some(i as int)
                &&& rest@ == path@.skip(self@[i as int]->0.len() as int)
            },
            r is None ==> first_match(self@, path@) is None,
    {
        proof {
            use_type_invariant(self);
        }
        let mut i: usize = 0;
        while i < self.drives.len()
            invariant
                i <= self.drives@.len(),
                self.drives@.len() == DRIVE_COUNT,
                forall|j: int| 0 <= j < i ==> !slot_matches(#[trigger] self@[j], path@),
            decreases self.drives@.len() - i,
        {
            match &self.drives[i] {
                Some(root) => {
                    match path.strip_prefix(root) {
                        Some(rest) => {
                            proof {
                                lemma_first_match_unique(self@, path@, i as int);
                            }
                            return Some((i, rest));
                        },
                        None => {},
                    }
                },
                None => {},
            }
            i = i + 1;
        }
        assert(!exists|k: int| is_first_match(self@, path@, k));
        None
    }
}

/// The directory that holds the drive links of a prefix.
pub open spec fn drives_dir_of(prefix: Seq<ComponentView>) -> Seq<ComponentView> {
    prefix.push(ComponentView::Normal(seq!['d', 'o', 's', 'd', 'e', 'v', 'i', 'c', 'e', 's']))
}

/// The link that names a drive: `<letter>:` in the prefix's drive directory.
pub open spec fn drive_link_of(prefix: Seq<ComponentView>, index: int) -> Seq<ComponentView> {
    drives_dir_of(prefix).push(ComponentView::Normal(seq![drive_letter(index), ':']))
}

/// The directory that holds the drive links of `prefix`.
pub fn drives_dir(prefix: &NativePath) -> (r: NativePath)
    ensures
        r@ == drives_dir_of(prefix@),
{
    proof {
        reveal_strlit("dosdevices");
    }
    let mut dir = prefix.clone();
    dir.push_normal("dosdevices");
    assert("dosdevices"@ =~= seq!['d', 'o', 's', 'd', 'e', 'v', 'i', 'c', 'e', 's']);
    dir
}

/// The symbolic link whose target backs the drive of slot `index`.
pub fn drive_link_path(prefix: &NativePath, index: usize) -> (r: NativePath)
    requires
        index < DRIVE_COUNT,
    ensures
        r@ == drive_link_of(prefix@, index as int),
{
    let mut link = drives_dir(prefix);
    let mut name = String::new();
    crate::wine_path::push_char(&mut name, index_to_drive(index));
    crate::wine_path::push_char(&mut name, ':');
    assert(name@ =~= seq![drive_letter(index as int), ':']);
    link.push(Component::Normal(name));
    link
}

} // verus!
