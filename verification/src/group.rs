//! Grouping files by a common name prefix into subdirectories.
//!
//! The library decides, from the names in a directory listing, which
//! groups to form, what each file is called after the move and what is
//! recorded; the caller lists directories and moves the files.

use vstd::prelude::*;
use crate::text::{
    owned, concat2, concat3, chars_of, string_of_range, str_eq, strings_view, starts_with,
    has_prefix, first_index, last_index, find_first, find_last, push_char, lemma_first_index_at,
    lemma_last_index_at,
};
use crate::changes::{ChangeRecord, ChangeView, change_views};

verus! {

/// Options for file grouping.
#[derive(Debug, Clone)]
pub struct GroupOptions {
    /// Separator character that divides prefix from the rest of the filename (default: '_')
    pub separator: char,
    /// Minimum number of files with same prefix to create a group (default: 2)
    pub min_count: usize,
    /// Remove the prefix from filenames after moving to subdirectory
    pub strip_prefix: bool,
    /// Use the part after the last separator as filename, the rest as directory
    pub from_suffix: bool,
    /// Process directories recursively
    pub recursive: bool,
    /// Dry run mode (don't move files or create directories)
    pub dry_run: bool,
}

impl Default for GroupOptions {
    fn default() -> (r: GroupOptions)
        ensures
            r.separator == '_',
            r.min_count == 2,
            !r.strip_prefix,
            !r.from_suffix,
            !r.recursive,
            !r.dry_run,
    {
        GroupOptions {
            separator: '_',
            min_count: 2,
            strip_prefix: false,
            from_suffix: false,
            recursive: false,
            dry_run: false,
        }
    }
}

/// Statistics from a grouping operation.
#[derive(Debug, Clone)]
pub struct GroupStats {
    /// Number of directories created
    pub dirs_created: usize,
    /// Number of files moved
    pub files_moved: usize,
    /// Number of files renamed (prefix stripped)
    pub files_renamed: usize,
}

impl Default for GroupStats {
    fn default() -> (r: GroupStats)
        ensures
            r.dirs_created == 0,
            r.files_moved == 0,
            r.files_renamed == 0,
    {
        GroupStats { dirs_created: 0, files_moved: 0, files_renamed: 0 }
    }
}

/// Result of a grouping operation including change tracking.
#[derive(Debug, Clone)]
pub struct GroupResult {
    /// Statistics from the operation
    pub stats: GroupStats,
    /// Record of all changes made (for reference fixing)
    pub changes: ChangeRecord,
}

/// The files of a directory that share one prefix.
#[derive(Debug, Clone)]
pub struct PrefixGroup {
    /// The shared prefix, which names the subdirectory
    pub prefix: String,
    /// The file names, in listing order
    pub files: Vec<String>,
}

/// What happens to one file of a group.
#[derive(Debug, Clone)]
pub struct PlannedMove {
    /// The file's name in the directory
    pub from: String,
    /// Its name inside the group's subdirectory
    pub to: String,
    /// The target already exists: the file is left where it is
    pub skip: bool,
    /// The file changes its name as it moves
    pub renamed: bool,
}

/// What to do for one group: create its subdirectory or not, and each
/// file's move.
#[derive(Debug, Clone)]
pub struct GroupPlan {
    /// The subdirectory does not exist yet and is created
    pub create_dir: bool,
    /// One entry per file of the group, in order
    pub moves: Vec<PlannedMove>,
}

/// Files whose name starts with a dot are hidden and never grouped.
pub open spec fn hidden(name: Seq<char>) -> bool {
    name.len() > 0 && name[0] == '.'
}

/// The part of `name` searched for the separator: the whole name, or the
/// name without its extension when splitting at the last separator.
pub open spec fn search_area(o: GroupOptions, name: Seq<char>) -> Seq<char> {
    if o.from_suffix {
        match last_index(name, '.') {
            Some(d) => name.take(d),
            None => name,
        }
    } else {
        name
    }
}

/// The prefix of `name`: what precedes the first separator (the last one
/// when splitting from the suffix), if it is not empty and something
/// follows the separator. The test of what follows counts UTF-8 bytes, so a
/// separator of more than one byte always leaves something after it.
pub open spec fn prefix_of(o: GroupOptions, name: Seq<char>) -> Option<Seq<char>> {
    let area = search_area(o, name);
    let pos = if o.from_suffix {
        last_index(area, o.separator)
    } else {
        first_index(area, o.separator)
    };
    match pos {
        Some(p) => if p > 0 && ((o.separator as u32) >= 0x80 || p + 1 < area.len()) {
            Some(area.take(p))
        } else {
            None
        },
        None => None,
    }
}

/// `name` without `prefix` and the separator, where it begins with them.
pub open spec fn stripped(o: GroupOptions, name: Seq<char>, prefix: Seq<char>) -> Seq<char> {
    let lead = prefix.push(o.separator);
    if starts_with(name, lead) {
        name.skip(lead.len() as int)
    } else {
        name
    }
}

/// Whether files lose their prefix when moved: asked for directly, or by
/// splitting from the suffix, where the suffix becomes the file's name.
pub open spec fn strips(o: GroupOptions) -> bool {
    o.strip_prefix || o.from_suffix
}

/// A file's name inside its group's subdirectory.
pub open spec fn target_of(o: GroupOptions, name: Seq<char>, prefix: Seq<char>) -> Seq<char> {
    if strips(o) {
        stripped(o, name, prefix)
    } else {
        name
    }
}

/// Whether `name` belongs to the group of `prefix`.
pub open spec fn in_group(o: GroupOptions, name: Seq<char>, prefix: Seq<char>) -> bool {
    !hidden(name) && prefix_of(o, name) == Some(prefix)
}

/// The names of a listing that belong to the group of `prefix`, in order.
pub open spec fn members(o: GroupOptions, names: Seq<Seq<char>>, prefix: Seq<char>) -> Seq<Seq<char>> {
    names.filter(|n: Seq<char>| in_group(o, n, prefix))
}

/// `name` inside the directory `dir` (relative to the base directory; empty
/// for the base directory itself).
pub open spec fn rel_join(dir: Seq<char>, name: Seq<char>) -> Seq<char> {
    if dir.len() == 0 {
        name
    } else {
        dir + seq!['/'] + name
    }
}

/// The groups of a listing: distinct prefixes, each with exactly its
/// members, every grouped prefix having at least `min` members, and every
/// prefix with at least `min` members (and at least one) present.
pub open spec fn groups_of_listing(
    o: GroupOptions,
    names: Seq<Seq<char>>,
    groups: Seq<PrefixGroup>,
    min: nat,
) -> bool {
    &&& forall|a: int, b: int|
        0 <= a < b < groups.len() ==> groups[a].prefix@ != groups[b].prefix@
    &&& forall|k: int|
        #![trigger groups[k]]
        0 <= k < groups.len() ==> strings_view(groups[k].files@) == members(
            o,
            names,
            groups[k].prefix@,
        ) && groups[k].files@.len() >= min && groups[k].files@.len() > 0
    &&& forall|p: Seq<char>|
        #![trigger members(o, names, p)]
        members(o, names, p).len() >= min && members(o, names, p).len() > 0 ==> exists|k: int|
            0 <= k < groups.len() && groups[k].prefix@ == p
}

/// What the plan for one group does: the subdirectory is created unless it
/// exists; each file goes to its target name unless that target exists;
/// a file is renamed when the prefix is stripped and the name changes.
pub open spec fn plan_matches(
    o: GroupOptions,
    group: PrefixGroup,
    subdir_exists: bool,
    target_exists: Seq<bool>,
    plan: GroupPlan,
) -> bool {
    &&& plan.create_dir == !subdir_exists
    &&& plan.moves@.len() == group.files@.len()
    &&& forall|i: int|
        #![trigger plan.moves@[i]]
        0 <= i < plan.moves@.len() ==> {
            let m = plan.moves@[i];
            &&& m.from@ == group.files@[i]@
            &&& m.to@ == target_of(o, group.files@[i]@, group.prefix@)
            &&& m.skip == target_exists[i]
            &&& m.renamed == (strips(o) && m.to@ != m.from@)
        }
}

/// The changes that a plan records, in order.
pub open spec fn plan_changes(dir: Seq<char>, prefix: Seq<char>, plan: GroupPlan) -> Seq<ChangeView> {
    let sub = rel_join(dir, prefix);
    let head = if plan.create_dir {
        seq![ChangeView::DirectoryCreated { path: sub }]
    } else {
        seq![]
    };
    head + moved_changes(dir, sub, plan.moves@)
}

/// The moves among `moves` that are not skipped, as changes.
pub open spec fn moved_changes(dir: Seq<char>, sub: Seq<char>, moves: Seq<PlannedMove>) -> Seq<ChangeView>
    decreases moves.len(),
{
    if moves.len() == 0 {
        seq![]
    } else {
        let rest = moved_changes(dir, sub, moves.drop_last());
        let m = moves.last();
        if m.skip {
            rest
        } else {
            rest.push(ChangeView::FileMoved { from: rel_join(dir, m.from@), to: rel_join(sub, m.to@) })
        }
    }
}

/// How many of `moves` are carried out.
pub open spec fn moved_count(moves: Seq<PlannedMove>) -> nat
    decreases moves.len(),
{
    if moves.len() == 0 {
        0
    } else {
        moved_count(moves.drop_last()) + if moves.last().skip { 0nat } else { 1nat }
    }
}

/// How many of `moves` are carried out with a new name.
pub open spec fn renamed_count(moves: Seq<PlannedMove>) -> nat
    decreases moves.len(),
{
    if moves.len() == 0 {
        0
    } else {
        renamed_count(moves.drop_last()) + if !moves.last().skip && moves.last().renamed {
            1nat
        } else {
            0nat
        }
    }
}

proof fn lemma_counts_bounded(moves: Seq<PlannedMove>)
    ensures
        renamed_count(moves) <= moved_count(moves) <= moves.len(),
    decreases moves.len(),
{
    if moves.len() > 0 {
        lemma_counts_bounded(moves.drop_last());
    }
}

/// Whether a name contains no backslash (so recording it changes nothing).
pub open spec fn plain(s: Seq<char>) -> bool {
    !s.contains('\\')
}

/// Groups files by prefix into subdirectories.
pub struct FileGrouper {
    options: GroupOptions,
}

impl View for FileGrouper {
    type V = GroupOptions;

    closed spec fn view(&self) -> GroupOptions {
        self.options
    }
}

/// `dir` joined with `name`, as [`rel_join`] states.
fn join_rel(dir: &str, name: &str) -> (r: String)
    ensures
        r@ == rel_join(dir@, name@),
{
    if dir.is_empty() {
        owned(name)
    } else {
        let r = concat3(dir, "/", name);
        proof {
            reveal_strlit("/");
        }
        r
    }
}

impl FileGrouper {
    /// Creates a grouper with the given options.
    pub fn new(options: GroupOptions) -> (r: FileGrouper)
        ensures
            r@ == options,
    {
        FileGrouper { options }
    }

    /// Creates a grouper with the default options.
    pub fn with_defaults() -> (r: FileGrouper)
        ensures
            r@.separator == '_',
            r@.min_count == 2,
            !r@.strip_prefix,
            !r@.from_suffix,
            !r@.recursive,
            !r@.dry_run,
    {
        FileGrouper { options: GroupOptions::default() }
    }

    /// The options this grouper runs with.
    pub fn options(&self) -> (r: &GroupOptions)
        ensures
            *r == self@,
    {
        &self.options
    }

    /// The prefix of a file name: what precedes the first separator, or the
    /// last one (before the extension) when splitting from the suffix;
    /// `None` when there is no separator, nothing before it or nothing
    /// after it.
    pub fn extract_prefix(&self, filename: &str) -> (r: Option<String>)
        ensures
            match r {
                Some(p) => prefix_of(self@, filename@) == Some(p@),
                None => prefix_of(self@, filename@) is None,
            },
    {
        let name = chars_of(filename);
        let end: usize = if self.options.from_suffix {
            match find_last(name.as_slice(), '.') {
                Some(d) => d,
                None => name.len(),
            }
        } else {
            name.len()
        };
        proof {
            lemma_last_index_bound(name@, '.');
        }
        let area_str = string_of_range(name.as_slice(), 0, end);
        let area = chars_of(area_str.as_str());
        assert(area@ == search_area(self@, filename@)) by {
            if self.options.from_suffix {
                if last_index(name@, '.') is None {
                    assert(name@.subrange(0, name@.len() as int) =~= name@);
                }
            } else {
                assert(name@.subrange(0, name@.len() as int) =~= name@);
            }
        }
        let pos = if self.options.from_suffix {
            find_last(area.as_slice(), self.options.separator)
        } else {
            find_first(area.as_slice(), self.options.separator)
        };
        match pos {
            Some(p) => {
                proof {
                    lemma_first_index_bound(area@, self.options.separator);
                    lemma_last_index_bound(area@, self.options.separator);
                }
                let wide = (self.options.separator as u32) >= 0x80;
                if p > 0 && (wide || p + 1 < area.len()) {
                    let r = string_of_range(area.as_slice(), 0, p);
                    assert(area@.subrange(0, p as int) =~= area@.take(p as int));
                    Some(r)
                } else {
                    None
                }
            },
            None => None,
        }
    }

    /// `filename` without `prefix` and the separator, where it begins with
    /// them; otherwise `filename` unchanged.
    pub fn strip_prefix_from_name(&self, filename: &str, prefix: &str) -> (r: String)
        ensures
            r@ == stripped(self@, filename@, prefix@),
    {
        let mut lead = owned(prefix);
        push_char(&mut lead, self.options.separator);
        let name = chars_of(filename);
        let lead_chars = chars_of(lead.as_str());
        if has_prefix(name.as_slice(), lead_chars.as_slice()) {
            let r = string_of_range(name.as_slice(), lead_chars.len(), name.len());
            assert(name@.subrange(lead_chars@.len() as int, name@.len() as int) =~= name@.skip(
                lead_chars@.len() as int,
            ));
            r
        } else {
            owned(filename)
        }
    }

    /// A file's name inside its group's subdirectory: the prefix stripped
    /// when the options ask for it or split from the suffix (the suffix then
    /// becomes the name), the name unchanged otherwise.
    pub fn target_name(&self, filename: &str, prefix: &str) -> (r: String)
        ensures
            r@ == target_of(self@, filename@, prefix@),
    {
        if self.options.strip_prefix || self.options.from_suffix {
            self.strip_prefix_from_name(filename, prefix)
        } else {
            owned(filename)
        }
    }

    /// Groups the file names of one directory listing by prefix, keeping
    /// the groups with at least the minimum count of files. Hidden files
    /// and files without a prefix are left out. Groups come in the order of
    /// their first file; files keep the listing's order.
    pub fn preview(&self, names: &[String]) -> (r: Vec<PrefixGroup>)
        ensures
            groups_of_listing(self@, strings_view(names@), r@, self@.min_count as nat),
    {
        let all = self.group_all(names);
        let ghost sv = strings_view(names@);
        let mut out: Vec<PrefixGroup> = Vec::new();
        let mut k: usize = 0;
        while k < all.len()
            invariant
                k <= all@.len(),
                groups_of_listing(self@, sv, all@, 0),
                sv == strings_view(names@),
                forall|a: int, b: int|
                    0 <= a < b < out@.len() ==> out@[a].prefix@ != out@[b].prefix@,
                forall|j: int|
                    #![trigger out@[j]]
                    0 <= j < out@.len() ==> strings_view(out@[j].files@) == members(
                        self@,
                        sv,
                        out@[j].prefix@,
                    ) && out@[j].files@.len() >= self@.min_count && out@[j].files@.len() > 0
                        && exists|a: int| 0 <= a < k && all@[a].prefix@ == out@[j].prefix@,
                forall|a: int|
                    #![trigger all@[a]]
                    0 <= a < k && all@[a].files@.len() >= self@.min_count ==> exists|j: int|
                        0 <= j < out@.len() && out@[j].prefix@ == all@[a].prefix@,
            decreases all.len() - k,
        {
            let g = &all[k];
            if g.files.len() >= self.options.min_count {
                let ghost before = out@;
                out.push(g.clone_group());
                proof {
                    assert(out@[out@.len() - 1].prefix@ == all@[k as int].prefix@);
                    assert forall|a: int, b: int|
                        0 <= a < b < out@.len() implies out@[a].prefix@ != out@[b].prefix@ by {
                        if b == out@.len() - 1 {
                            assert(out@[a] == before[a]);
                            let aa = choose|aa: int|
                                0 <= aa < k && all@[aa].prefix@ == before[a].prefix@;
                            assert(all@[aa].prefix@ != all@[k as int].prefix@);
                        } else {
                            assert(out@[a] == before[a]);
                            assert(out@[b] == before[b]);
                        }
                    }
                    assert forall|j: int|
                        #![trigger out@[j]]
                        0 <= j < out@.len() implies strings_view(out@[j].files@) == members(
                            self@,
                            sv,
                            out@[j].prefix@,
                        ) && out@[j].files@.len() >= self@.min_count && out@[j].files@.len() > 0
                            && exists|a: int| 0 <= a < k + 1 && all@[a].prefix@ == out@[j].prefix@ by {
                        if j < before.len() {
                            assert(out@[j] == before[j]);
                        } else {
                            assert(all@[k as int].prefix@ == out@[j].prefix@);
                        }
                    }
                    assert forall|a: int|
                        #![trigger all@[a]]
                        0 <= a < k + 1 && all@[a].files@.len() >= self@.min_count implies exists|j: int|
                            0 <= j < out@.len() && out@[j].prefix@ == all@[a].prefix@ by {
                        if a < k {
                            let j = choose|j: int|
                                0 <= j < before.len() && before[j].prefix@ == all@[a].prefix@;
                            assert(out@[j] == before[j]);
                        } else {
                            assert(out@[out@.len() - 1].prefix@ == all@[a].prefix@);
                        }
                    }
                }
            }
            k += 1;
        }
        proof {
            assert forall|p: Seq<char>|
                #![trigger members(self@, sv, p)]
                members(self@, sv, p).len() >= self@.min_count && members(self@, sv, p).len()
                    > 0 implies exists|j: int| 0 <= j < out@.len() && out@[j].prefix@ == p by {
                let a = choose|a: int| 0 <= a < all@.len() && all@[a].prefix@ == p;
                assert(all@[a].files@.len() == strings_view(all@[a].files@).len());
            }
        }
        out
    }

    /// Every group of a listing, whatever its size.
    fn group_all(&self, names: &[String]) -> (r: Vec<PrefixGroup>)
        ensures
            groups_of_listing(self@, strings_view(names@), r@, 0),
    {
        let mut groups: Vec<PrefixGroup> = Vec::new();
        let mut i: usize = 0;
        while i < names.len()
            invariant
                i <= names@.len(),
                forall|a: int, b: int|
                    0 <= a < b < groups@.len() ==> groups@[a].prefix@ != groups@[b].prefix@,
                forall|k: int|
                    #![trigger groups@[k]]
                    0 <= k < groups@.len() ==> strings_view(groups@[k].files@) == members(
                        self@,
                        strings_view(names@.take(i as int)),
                        groups@[k].prefix@,
                    ) && groups@[k].files@.len() > 0,
                forall|j: int|
                    0 <= j < i && prefix_of(self@, names@[j]@) is Some && !hidden(names@[j]@)
                        ==> exists|k: int|
                        0 <= k < groups@.len() && Some(groups@[k].prefix@) == prefix_of(
                            self@,
                            #[trigger] names@[j]@,
                        ),
            decreases names.len() - i,
        {
            let ghost prev = strings_view(names@.take(i as int));
            let ghost next = strings_view(names@.take(i + 1));
            let ghost x = names@[i as int]@;
            assert(next =~= prev.push(x));
            let name = names[i].as_str();
            let ghost old_groups = groups@;
            let is_hidden = !name.is_empty() && self.first_is_dot(name);
            let found = if is_hidden { None } else { self.extract_prefix(name) };
            match found {
                None => {
                    proof {
                        assert forall|k: int|
                            #![trigger groups@[k]]
                            0 <= k < groups@.len() implies strings_view(groups@[k].files@)
                                == members(self@, next, groups@[k].prefix@) by {
                            lemma_filter_push_at(prev, x, self@, groups@[k].prefix@);
                        }
                    }
                },
                Some(p) => {
                    let idx = find_group(&groups, p.as_str());
                    match idx {
                        Some(k) => {
                            let mut g = groups.remove(k);
                            g.files.push(owned(name));
                            groups.insert(k, g);
                            proof {
                                assert forall|a: int, b: int|
                                    0 <= a < b < groups@.len() implies groups@[a].prefix@
                                        != groups@[b].prefix@ by {
                                    assert(groups@[a].prefix@ == old_groups[a].prefix@);
                                    assert(groups@[b].prefix@ == old_groups[b].prefix@);
                                }
                                assert forall|kk: int|
                                    #![trigger groups@[kk]]
                                    0 <= kk < groups@.len() implies strings_view(
                                        groups@[kk].files@,
                                    ) == members(self@, next, groups@[kk].prefix@)
                                        && groups@[kk].files@.len() > 0 by {
                                    lemma_filter_push_at(prev, x, self@, groups@[kk].prefix@);
                                    if kk == k {
                                        assert(strings_view(groups@[kk].files@) =~= strings_view(
                                            old_groups[kk].files@,
                                        ).push(x));
                                    } else {
                                        assert(groups@[kk] == old_groups[kk]);
                                    }
                                }
                                assert forall|j: int|
                                    0 <= j < i + 1 && prefix_of(self@, names@[j]@) is Some
                                        && !hidden(names@[j]@) implies exists|kk: int|
                                    0 <= kk < groups@.len() && Some(groups@[kk].prefix@)
                                        == prefix_of(self@, #[trigger] names@[j]@) by {
                                    if j < i {
                                        let kk = choose|kk: int|
                                            0 <= kk < old_groups.len() && Some(
                                                old_groups[kk].prefix@,
                                            ) == prefix_of(self@, names@[j]@);
                                        assert(groups@[kk].prefix@ == old_groups[kk].prefix@);
                                    } else {
                                        assert(groups@[k as int].prefix@ == p@);
                                    }
                                }
                            }
                        },
                        None => {
                            let mut files: Vec<String> = Vec::new();
                            files.push(owned(name));
                            groups.push(PrefixGroup { prefix: p, files });
                            proof {
                                assert forall|a: int, b: int|
                                    0 <= a < b < groups@.len() implies groups@[a].prefix@
                                        != groups@[b].prefix@ by {
                                    if b < old_groups.len() {
                                        assert(groups@[a] == old_groups[a]);
                                        assert(groups@[b] == old_groups[b]);
                                    } else {
                                        assert(groups@[a] == old_groups[a]);
                                    }
                                }
                                assert forall|kk: int|
                                    #![trigger groups@[kk]]
                                    0 <= kk < groups@.len() implies strings_view(
                                        groups@[kk].files@,
                                    ) == members(self@, next, groups@[kk].prefix@)
                                        && groups@[kk].files@.len() > 0 by {
                                    lemma_filter_push_at(prev, x, self@, groups@[kk].prefix@);
                                    if kk < old_groups.len() {
                                        assert(groups@[kk] == old_groups[kk]);
                                    } else {
                                        lemma_no_members(prev, self@, groups@[kk].prefix@);
                                        assert(strings_view(groups@[kk].files@) =~= seq![x]);
                                        assert(seq![x] =~= Seq::<Seq<char>>::empty().push(x));
                                    }
                                }
                                assert forall|j: int|
                                    0 <= j < i + 1 && prefix_of(self@, names@[j]@) is Some
                                        && !hidden(names@[j]@) implies exists|kk: int|
                                    0 <= kk < groups@.len() && Some(groups@[kk].prefix@)
                                        == prefix_of(self@, #[trigger] names@[j]@) by {
                                    if j < i {
                                        let kk = choose|kk: int|
                                            0 <= kk < old_groups.len() && Some(
                                                old_groups[kk].prefix@,
                                            ) == prefix_of(self@, names@[j]@);
                                        assert(groups@[kk] == old_groups[kk]);
                                    } else {
                                        assert(groups@[old_groups.len() as int].prefix@ == p@);
                                    }
                                }
                            }
                        },
                    }
                },
            }
            i += 1;
        }
        assert(names@.take(names@.len() as int) == names@);
        proof {
            let sv = strings_view(names@);
            assert forall|p: Seq<char>|
                #![trigger members(self@, sv, p)]
                members(self@, sv, p).len() >= 0 && members(self@, sv, p).len() > 0 implies exists|
                k: int,
            | 0 <= k < groups@.len() && groups@[k].prefix@ == p by {
                let m = members(self@, sv, p);
                lemma_member_origin(sv, self@, p, m[0]);
                let j = choose|j: int| 0 <= j < sv.len() && sv[j] == m[0];
                assert(sv[j] == names@[j]@);
                let k = choose|k: int|
                    0 <= k < groups@.len() && Some(groups@[k].prefix@) == prefix_of(
                        self@,
                        names@[j]@,
                    );
            }
        }
        groups
    }

    /// Whether `name` (not empty) starts with a dot.
    fn first_is_dot(&self, name: &str) -> (r: bool)
        requires
            name@.len() > 0,
        ensures
            r == hidden(name@),
    {
        let cs = chars_of(name);
        cs[0] == '.'
    }

    /// Decides what happens to one group of the directory `dir` (relative
    /// to the base directory, empty for the base itself), given whether
    /// its subdirectory exists and whether each file's target exists. A
    /// group below the minimum count is left alone. What is decided is
    /// recorded in `changes` and counted in `stats`.
    pub fn plan_group(
        &self,
        dir: &str,
        group: &PrefixGroup,
        subdir_exists: bool,
        target_exists: &[bool],
        changes: &mut ChangeRecord,
        stats: &mut GroupStats,
    ) -> (r: GroupPlan)
        requires
            target_exists@.len() == group.files@.len(),
            old(stats).dirs_created < usize::MAX,
            old(stats).files_moved + group.files@.len() <= usize::MAX,
            old(stats).files_renamed + group.files@.len() <= usize::MAX,
        ensures
            group.files@.len() < self@.min_count ==> r.moves@.len() == 0 && !r.create_dir
                && *final(stats) == *old(stats) && final(changes).changes@ == old(changes).changes@,
            group.files@.len() >= self@.min_count ==> {
                &&& plan_matches(self@, *group, subdir_exists, target_exists@, r)
                &&& final(stats).dirs_created == old(stats).dirs_created + if r.create_dir {
                    1int
                } else {
                    0int
                }
                &&& final(stats).files_moved == old(stats).files_moved + moved_count(r.moves@)
                &&& final(stats).files_renamed == old(stats).files_renamed + renamed_count(
                    r.moves@,
                )
                &&& final(changes).changes@.len() >= old(changes).changes@.len()
                &&& final(changes).changes@.take(old(changes).changes@.len() as int) == old(
                    changes,
                ).changes@
                &&& (plain(dir@) && plain(group.prefix@) && forall|i: int|
                    0 <= i < group.files@.len() ==> plain(#[trigger] group.files@[i]@)
                        && plain(target_of(self@, group.files@[i]@, group.prefix@)))
                    ==> change_views(final(changes).changes@) == change_views(
                    old(changes).changes@,
                ) + plan_changes(dir@, group.prefix@, r)
            },
            final(changes).operation == old(changes).operation,
            final(changes).base_dir == old(changes).base_dir,
            final(changes).timestamp == old(changes).timestamp,
            final(changes).options == old(changes).options,
    {
        if group.files.len() < self.options.min_count {
            return GroupPlan { create_dir: false, moves: Vec::new() };
        }
        let sub = join_rel(dir, group.prefix.as_str());
        let ghost start = change_views(changes.changes@);
        let ghost all_plain = plain(dir@) && plain(group.prefix@) && forall|i: int|
            0 <= i < group.files@.len() ==> plain(#[trigger] group.files@[i]@) && plain(
                target_of(self@, group.files@[i]@, group.prefix@),
            );
        proof {
            if all_plain {
                lemma_rel_join_plain(dir@, group.prefix@);
            }
        }
        let create_dir = !subdir_exists;
        if create_dir {
            changes.add_directory_created(sub.as_str());
            stats.dirs_created = stats.dirs_created + 1;
        }
        let ghost head = if create_dir {
            seq![ChangeView::DirectoryCreated { path: sub@ }]
        } else {
            seq![]
        };
        assert(all_plain ==> change_views(changes.changes@) =~= start + head);
        let ghost mid_len = changes.changes@.len();
        let ghost moved0 = stats.files_moved;
        let ghost renamed0 = stats.files_renamed;
        let mut moves: Vec<PlannedMove> = Vec::new();
        let mut i: usize = 0;
        while i < group.files.len()
            invariant
                i <= group.files@.len(),
                target_exists@.len() == group.files@.len(),
                sub@ == rel_join(dir@, group.prefix@),
                moves@.len() == i,
                forall|j: int|
                    #![trigger moves@[j]]
                    0 <= j < i ==> {
                        let m = moves@[j];
                        &&& m.from@ == group.files@[j]@
                        &&& m.to@ == target_of(self@, group.files@[j]@, group.prefix@)
                        &&& m.skip == target_exists@[j]
                        &&& m.renamed == (strips(self@) && m.to@ != m.from@)
                    },
                stats.files_moved == moved0 + moved_count(moves@),
                stats.files_renamed == renamed0 + renamed_count(moves@),
                moved0 + group.files@.len() <= usize::MAX,
                renamed0 + group.files@.len() <= usize::MAX,
                stats.dirs_created == old(stats).dirs_created + if create_dir { 1int } else { 0int },
                changes.changes@.len() >= old(changes).changes@.len(),
                changes.changes@.take(old(changes).changes@.len() as int) == old(changes).changes@,
                all_plain ==> change_views(changes.changes@) == start + head + moved_changes(
                    dir@,
                    sub@,
                    moves@,
                ),
                all_plain ==> forall|j: int|
                    0 <= j < group.files@.len() ==> plain(#[trigger] group.files@[j]@) && plain(
                        target_of(self@, group.files@[j]@, group.prefix@),
                    ),
                all_plain ==> plain(dir@) && plain(sub@),
                start == change_views(old(changes).changes@),
                changes.operation == old(changes).operation,
                changes.base_dir == old(changes).base_dir,
                changes.timestamp == old(changes).timestamp,
                changes.options == old(changes).options,
            decreases group.files.len() - i,
        {
            let from = group.files[i].as_str();
            let to = self.target_name(from, group.prefix.as_str());
            let renamed = (self.options.strip_prefix || self.options.from_suffix) && !str_eq(
                to.as_str(),
                from,
            );
            let skip = target_exists[i];
            let ghost before_moves = moves@;
            let ghost before_changes = changes.changes@;
            proof {
                lemma_counts_bounded(before_moves);
            }
            if !skip {
                let old_rel = join_rel(dir, from);
                let new_rel = join_rel(sub.as_str(), to.as_str());
                proof {
                    if all_plain {
                        lemma_rel_join_plain(dir@, from@);
                        lemma_rel_join_plain(sub@, to@);
                    }
                }
                changes.add_file_moved(old_rel.as_str(), new_rel.as_str());
                stats.files_moved = stats.files_moved + 1;
                if renamed {
                    stats.files_renamed = stats.files_renamed + 1;
                }
                proof {
                    assert(changes.changes@.take(old(changes).changes@.len() as int) =~= before_changes.take(
                        old(changes).changes@.len() as int,
                    ));
                }
            }
            moves.push(PlannedMove { from: owned(from), to, skip, renamed });
            proof {
                assert(moves@.drop_last() =~= before_moves);
                assert forall|j: int|
                    #![trigger moves@[j]]
                    0 <= j < i + 1 implies {
                        let m = moves@[j];
                        &&& m.from@ == group.files@[j]@
                        &&& m.to@ == target_of(self@, group.files@[j]@, group.prefix@)
                        &&& m.skip == target_exists@[j]
                        &&& m.renamed == (strips(self@) && m.to@ != m.from@)
                    } by {
                    if j < i {
                        assert(moves@[j] == before_moves[j]);
                    }
                }
            }
            i += 1;
        }
        let plan = GroupPlan { create_dir, moves };
        proof {
            if all_plain {
                assert(plan_changes(dir@, group.prefix@, plan) == head + moved_changes(
                    dir@,
                    sub@,
                    plan.moves@,
                ));
                assert(start + head + moved_changes(dir@, sub@, plan.moves@) =~= start + (head
                    + moved_changes(dir@, sub@, plan.moves@)));
            }
        }
        plan
    }

    /// The subdirectories to visit after the directory itself: the
    /// non-hidden ones of the listing when running recursively, none
    /// otherwise.
    pub fn subdirectories(&self, dirs: &[String]) -> (r: Vec<String>)
        ensures
            strings_view(r@) == if self@.recursive {
                strings_view(dirs@).filter(|n: Seq<char>| !hidden(n))
            } else {
                seq![]
            },
    {
        let mut out: Vec<String> = Vec::new();
        if !self.options.recursive {
            assert(strings_view(out@) =~= seq![]);
            return out;
        }
        let ghost keep = |n: Seq<char>| !hidden(n);
        let mut i: usize = 0;
        while i < dirs.len()
            invariant
                i <= dirs@.len(),
                strings_view(out@) == strings_view(dirs@.take(i as int)).filter(keep),
                keep == |n: Seq<char>| !hidden(n),
            decreases dirs.len() - i,
        {
            let name = dirs[i].as_str();
            let ghost prev = strings_view(dirs@.take(i as int));
            assert(strings_view(dirs@.take(i + 1)) =~= prev.push(name@));
            proof {
                prev.lemma_filter_push(name@, keep);
            }
            let is_hidden = !name.is_empty() && self.first_is_dot(name);
            if !is_hidden {
                out.push(owned(name));
                assert(strings_view(out@) =~= prev.filter(keep).push(name@));
            }
            i += 1;
        }
        assert(dirs@.take(dirs@.len() as int) == dirs@);
        out
    }
}

impl PrefixGroup {
    /// A copy of the group.
    pub fn clone_group(&self) -> (r: PrefixGroup)
        ensures
            r.prefix@ == self.prefix@,
            strings_view(r.files@) == strings_view(self.files@),
            r.files@.len() == self.files@.len(),
    {
        let mut files: Vec<String> = Vec::new();
        let mut i: usize = 0;
        while i < self.files.len()
            invariant
                i <= self.files@.len(),
                strings_view(files@) == strings_view(self.files@.take(i as int)),
                files@.len() == i,
            decreases self.files.len() - i,
        {
            let ghost before = files@;
            files.push(owned(self.files[i].as_str()));
            proof {
                crate::text::lemma_take_push(self.files@, i as int);
                crate::text::lemma_texts_push(before, files@.last());
                crate::text::lemma_texts_push(self.files@.take(i as int), self.files@[i as int]);
                assert(files@ == before.push(files@.last()));
            }
            i += 1;
        }
        assert(self.files@.take(self.files@.len() as int) == self.files@);
        PrefixGroup { prefix: owned(self.prefix.as_str()), files }
    }
}

/// Position of the group of `prefix` among `groups`.
fn find_group(groups: &Vec<PrefixGroup>, prefix: &str) -> (r: Option<usize>)
    ensures
        match r {
            Some(k) => k < groups@.len() && groups@[k as int].prefix@ == prefix@,
            None => forall|k: int| 0 <= k < groups@.len() ==> groups@[k].prefix@ != prefix@,
        },
{
    let mut k: usize = 0;
    while k < groups.len()
        invariant
            k <= groups@.len(),
            forall|j: int| 0 <= j < k ==> groups@[j].prefix@ != prefix@,
        decreases groups.len() - k,
    {
        if str_eq(groups[k].prefix.as_str(), prefix) {
            return Some(k);
        }
        k += 1;
    }
    None
}

proof fn lemma_first_index_bound(s: Seq<char>, c: char)
    ensures
        first_index(s, c) matches Some(i) ==> 0 <= i < s.len() && s[i] == c,
    decreases s.len(),
{
    if s.len() > 0 && s[0] != c {
        lemma_first_index_bound(s.drop_first(), c);
    }
}

proof fn lemma_last_index_bound(s: Seq<char>, c: char)
    ensures
        last_index(s, c) matches Some(i) ==> 0 <= i < s.len() && s[i] == c,
    decreases s.len(),
{
    if s.len() > 0 && s.last() != c {
        lemma_last_index_bound(s.drop_last(), c);
    }
}

proof fn lemma_filter_push_at(prev: Seq<Seq<char>>, x: Seq<char>, o: GroupOptions, p: Seq<char>)
    ensures
        members(o, prev.push(x), p) == if in_group(o, x, p) {
            members(o, prev, p).push(x)
        } else {
            members(o, prev, p)
        },
{
    prev.lemma_filter_push(x, |n: Seq<char>| in_group(o, n, p));
}

proof fn lemma_no_members(names: Seq<Seq<char>>, o: GroupOptions, p: Seq<char>)
    requires
        forall|j: int| 0 <= j < names.len() ==> !in_group(o, #[trigger] names[j], p),
    ensures
        members(o, names, p) == Seq::<Seq<char>>::empty(),
    decreases names.len(),
{
    reveal(Seq::filter);
    if names.len() > 0 {
        let t = names.drop_last();
        assert forall|j: int| 0 <= j < t.len() implies !in_group(o, #[trigger] t[j], p) by {
            assert(t[j] == names[j]);
        }
        lemma_no_members(t, o, p);
        assert(!in_group(o, names[names.len() - 1], p));
    }
}

proof fn lemma_member_origin(names: Seq<Seq<char>>, o: GroupOptions, p: Seq<char>, x: Seq<char>)
    requires
        members(o, names, p).contains(x),
    ensures
        exists|j: int| 0 <= j < names.len() && names[j] == x,
        in_group(o, x, p),
{
    let f = |n: Seq<char>| in_group(o, n, p);
    names.filter_lemma(f);
    let i = choose|i: int| 0 <= i < names.filter(f).len() && names.filter(f)[i] == x;
    assert(names.filter(f).contains(names.filter(f)[i]));
    names.lemma_filter_contains_rev(f, x);
}

proof fn lemma_rel_join_plain(dir: Seq<char>, name: Seq<char>)
    requires
        plain(dir),
        plain(name),
    ensures
        plain(rel_join(dir, name)),
{
    if dir.len() > 0 {
        let r = dir + seq!['/'] + name;
        assert forall|j: int| 0 <= j < r.len() implies r[j] != '\\' by {
            if j < dir.len() {
                assert(r[j] == dir[j]);
                assert(dir.contains(dir[j]));
            } else if j > dir.len() {
                assert(r[j] == name[j - dir.len() - 1]);
                assert(name.contains(name[j - dir.len() - 1]));
            }
        }
    }
}

} // verus!

verus! {

/// A grouped file's name inside its group's subdirectory: when the prefix
/// is to be stripped (asked for, or implied by splitting from the suffix)
/// and the name begins with the prefix and the separator, it is the rest
/// of the name; otherwise it is the name itself.
pub proof fn lemma_target_names(o: GroupOptions, name: Seq<char>, prefix: Seq<char>)
    ensures
        (o.strip_prefix || o.from_suffix) && prefix.len() + 1 <= name.len() && name.take(
            prefix.len() as int,
        ) == prefix && name[prefix.len() as int] == o.separator ==> target_of(o, name, prefix)
            == name.skip((prefix.len() + 1) as int),
        (o.strip_prefix || o.from_suffix) && !(prefix.len() + 1 <= name.len() && name.take(
            prefix.len() as int,
        ) == prefix && name[prefix.len() as int] == o.separator) ==> target_of(o, name, prefix)
            == name,
        !o.strip_prefix && !o.from_suffix ==> target_of(o, name, prefix) == name,
{
    let lead = prefix.push(o.separator);
    if prefix.len() + 1 <= name.len() && name.take(prefix.len() as int) == prefix
        && name[prefix.len() as int] == o.separator {
        assert(name.take(lead.len() as int) =~= lead) by {
            assert forall|j: int| 0 <= j < lead.len() implies name.take(lead.len() as int)[j]
                == lead[j] by {
                if j < prefix.len() {
                    assert(name.take(prefix.len() as int)[j] == name[j]);
                }
            }
        }
    } else if starts_with(name, lead) {
        assert(name.take(prefix.len() as int) =~= prefix) by {
            assert forall|j: int| 0 <= j < prefix.len() implies name.take(prefix.len() as int)[j]
                == prefix[j] by {
                assert(name.take(lead.len() as int)[j] == lead[j]);
            }
        }
        assert(name.take(lead.len() as int)[prefix.len() as int] == lead[prefix.len() as int]);
    }
}


/// A name's prefix is what precedes its first separator, when that is not
/// empty and something follows the separator; a name without a separator
/// has no prefix.
pub proof fn lemma_prefix_before_first_separator(o: GroupOptions, p: Seq<char>, rest: Seq<char>)
    requires
        !o.from_suffix,
        p.len() > 0,
        rest.len() > 0,
        forall|j: int| 0 <= j < p.len() ==> p[j] != o.separator,
    ensures
        prefix_of(o, p + seq![o.separator] + rest) == Some(p),
        prefix_of(o, p) is None,
{
    let name = p + seq![o.separator] + rest;
    assert forall|j: int| 0 <= j < p.len() implies name[j] != o.separator by {
        assert(name[j] == p[j]);
    }
    assert(name[p.len() as int] == o.separator);
    lemma_first_index_at(name, o.separator, p.len() as int);
    assert(name.take(p.len() as int) =~= p);
    lemma_first_index_at(p, o.separator, p.len() as int);
}

/// Splitting from the suffix, a name's prefix is everything before the
/// last separator of its stem (separators in it included), when the part
/// between that separator and the extension is not empty.
pub proof fn lemma_prefix_before_last_separator(
    o: GroupOptions,
    p: Seq<char>,
    tail: Seq<char>,
    ext: Seq<char>,
)
    requires
        o.from_suffix,
        o.separator != '.',
        p.len() > 0,
        tail.len() > 0,
        forall|j: int| 0 <= j < tail.len() ==> tail[j] != o.separator && tail[j] != '.',
        forall|j: int| 0 <= j < ext.len() ==> ext[j] != '.',
    ensures
        prefix_of(o, p + seq![o.separator] + tail + seq!['.'] + ext) == Some(p),
{
    let area = p + seq![o.separator] + tail;
    let name = area + seq!['.'] + ext;
    let k: int = area.len() as int + 1;
    assert forall|j: int| k <= j < name.len() implies name[j] != '.' by {
        assert(name[j] == ext[j - k]);
    }
    assert(name[k - 1] == '.');
    lemma_last_index_at(name, '.', k);
    assert(name.take(k - 1) =~= area);
    assert(search_area(o, name) == area);
    let q: int = p.len() as int + 1;
    assert forall|j: int| q <= j < area.len() implies area[j] != o.separator by {
        assert(area[j] == tail[j - q]);
    }
    assert(area[q - 1] == o.separator);
    lemma_last_index_at(area, o.separator, q);
    assert(area.take(p.len() as int) =~= p);
}

} // verus!
