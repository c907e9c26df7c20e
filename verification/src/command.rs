//! What the command-line front end decides: which preset a name selects,
//! whether a tree with uncommitted work may be rewritten, and how files
//! are selected.

use vstd::prelude::*;
use crate::config::{Preset, validate_steps, valid_steps, first_unknown_step};
use crate::error::ReformatError;
use crate::order::{sorted_unique, strictly_sorted};
use crate::step::FileTarget;
use crate::text::{
    owned, concat2, concat3, chars_of, str_eq, strings_view, join, join_strings, usize_text, decimal,
    push_str,
};
use crate::path::{file_name_of, path_file_name};

verus! {

/// The name of the preset file.
pub const CONFIG_FILENAME: &'static str = "reformat.json";

/// The names of the presets of a loaded configuration, in order.
pub open spec fn preset_names(config: Seq<(String, Preset)>) -> Seq<Seq<char>> {
    config.map_values(|e: (String, Preset)| e.0@)
}

/// The message for a preset name that the configuration lacks.
pub open spec fn missing_preset_message(config: Seq<(String, Preset)>, name: Seq<char>) -> Seq<char> {
    "preset '"@ + name + "' not found in reformat.json. Available presets: "@ + if config.len() == 0 {
        "(none)"@
    } else {
        join(preset_names(config), ", "@)
    }
}

/// Looks up a preset by name and checks its steps. A missing name is
/// reported with the available ones; an unknown step as [`validate_steps`]
/// reports it.
pub fn get_preset<'a>(config: &'a [(String, Preset)], name: &str) -> (r: Result<&'a Preset, ReformatError>)
    ensures
        (forall|k: int| 0 <= k < config@.len() ==> config@[k].0@ != name@) ==> (r matches Err(e)
            && e@ == missing_preset_message(config@, name@)),
        (exists|k: int| 0 <= k < config@.len() && config@[k].0@ == name@) ==> {
            let k = choose|k: int|
                0 <= k < config@.len() && config@[k].0@ == name@ && forall|j: int|
                    0 <= j < k ==> config@[j].0@ != name@;
            let steps = config@[k].1.steps@;
            &&& r is Ok <==> forall|j: int| 0 <= j < steps.len() ==> valid_steps().contains(
                #[trigger] steps[j]@,
            )
            &&& r matches Ok(p) ==> *p == config@[k].1
            &&& r matches Err(e) ==> e@ == "preset '"@ + name@ + "': unknown step '"@
                + steps[first_unknown_step(strings_view(steps))]@ + "'. Valid steps: "@ + join(
                valid_steps(),
                ", "@,
            )
        },
{
    let mut k: usize = 0;
    while k < config.len()
        invariant
            k <= config@.len(),
            forall|j: int| 0 <= j < k ==> config@[j].0@ != name@,
        decreases config.len() - k,
    {
        if str_eq(config[k].0.as_str(), name) {
            let preset = &config[k].1;
            proof {
                let kk = choose|kk: int|
                    0 <= kk < config@.len() && config@[kk].0@ == name@ && forall|j: int|
                        0 <= j < kk ==> config@[j].0@ != name@;
                if kk < k {
                } else if kk > k {
                    assert(config@[k as int].0@ == name@);
                }
                assert(kk == k);
            }
            return match validate_steps(name, preset.steps.as_slice()) {
                Ok(()) => Ok(preset),
                Err(e) => Err(e),
            };
        }
        k += 1;
    }
    let mut names: Vec<String> = Vec::new();
    let mut i: usize = 0;
    while i < config.len()
        invariant
            i <= config@.len(),
            strings_view(names@) == preset_names(config@.take(i as int)),
        decreases config.len() - i,
    {
        let ghost before = names@;
        names.push(owned(config[i].0.as_str()));
        assert(config@.take(i + 1) =~= config@.take(i as int).push(config@[i as int]));
        assert(names@ =~= before.push(names@.last()));
        assert(strings_view(names@) =~= strings_view(before).push(config@[i as int].0@));
        assert(strings_view(names@) =~= preset_names(config@.take(i + 1)));
        i += 1;
    }
    assert(config@.take(config@.len() as int) =~= config@);
    let listed = if config.len() == 0 {
        owned("(none)")
    } else {
        join_strings(names.as_slice(), ", ")
    };
    let mut m = concat3("preset '", name, "' not found in reformat.json. Available presets: ");
    push_str(&mut m, listed.as_str());
    Err(ReformatError::new(m))
}

/// How many uncommitted entries the refusal lists before summarising.
pub const SHOWN: usize = 10;

/// The listing of uncommitted entries: the first ten, indented, and a
/// summary line for the rest.
pub open spec fn dirty_listing(dirty: Seq<Seq<char>>) -> Seq<Seq<char>> {
    let shown = dirty.take(if dirty.len() < 10 { dirty.len() as int } else { 10 });
    let lines = shown.map_values(|l: Seq<char>| "  "@ + l);
    if dirty.len() > 10 {
        lines.push("  ... and "@ + decimal((dirty.len() - 10) as nat) + " more"@)
    } else {
        lines
    }
}

/// Refuses to let `command` rewrite files when git reports uncommitted
/// changes under the paths (the `git status --porcelain` lines in
/// `status`), unless `allow_dirty`. The lines are listed sorted and
/// without repeats.
pub fn ensure_clean(command: &str, status: &[String], allow_dirty: bool) -> (r: Result<(), ReformatError>)
    ensures
        allow_dirty || status@.len() == 0 ==> r is Ok,
        !allow_dirty && status@.len() > 0 ==> (r matches Err(e) && exists|d: Seq<Seq<char>>|
            strictly_sorted(d) && (forall|x: Seq<char>| d.contains(x) <==> strings_view(status@).contains(x))
                && e@ == command@ + " would modify files with uncommitted changes:\n"@ + join(
                dirty_listing(d),
                "\n"@,
            ) + "\nCommit or stash them first, preview with --diff or --dry-run, or pass --allow-dirty."@),
{
    if allow_dirty {
        return Ok(());
    }
    let dirty = sorted_unique(status);
    if dirty.len() == 0 {
        proof {
            if status@.len() > 0 {
                assert(strings_view(status@).contains(strings_view(status@)[0]));
            }
        }
        return Ok(());
    }
    let ghost d = strings_view(dirty@);
    assert(d.contains(d[0]));
    let shown: usize = if dirty.len() < SHOWN { dirty.len() } else { SHOWN };
    let mut listing: Vec<String> = Vec::new();
    let mut i: usize = 0;
    while i < shown
        invariant
            i <= shown,
            shown <= dirty@.len(),
            d == strings_view(dirty@),
            strings_view(listing@) == d.take(i as int).map_values(|l: Seq<char>| "  "@ + l),
        decreases shown - i,
    {
        let ghost before = listing@;
        listing.push(concat2("  ", dirty[i].as_str()));
        assert(d.take(i + 1) =~= d.take(i as int).push(d[i as int]));
        assert(listing@ =~= before.push(listing@.last()));
        assert(strings_view(listing@) =~= strings_view(before).push("  "@ + d[i as int]));
        assert(strings_view(listing@) =~= d.take(i + 1).map_values(|l: Seq<char>| "  "@ + l));
        i += 1;
    }
    if dirty.len() > SHOWN {
        let n = usize_text(dirty.len() - SHOWN);
        let ghost before = strings_view(listing@);
        listing.push(concat3("  ... and ", n.as_str(), " more"));
        assert(strings_view(listing@) =~= before.push("  ... and "@ + n@ + " more"@));
    }
    assert(strings_view(listing@) == dirty_listing(d));
    let body = join_strings(listing.as_slice(), "\n");
    let mut m = concat2(command, " would modify files with uncommitted changes:\n");
    push_str(&mut m, body.as_str());
    push_str(
        &mut m,
        "\nCommit or stash them first, preview with --diff or --dry-run, or pass --allow-dirty.",
    );
    Err(ReformatError::new(m))
}

/// Whether the last component of `path` is a hidden name.
pub open spec fn hidden_name(path: Seq<char>) -> bool {
    file_name_of(path) matches Some(n) && n.len() > 0 && n[0] == '.'
}

/// Whether `path` names a hidden file or directory (its last component
/// starts with a dot).
pub fn is_hidden_name(path: &str) -> (r: bool)
    ensures
        r == hidden_name(path@),
{
    match path_file_name(path) {
        Some(n) => {
            let c = chars_of(n.as_str());
            c.len() > 0 && c[0] == '.'
        },
        None => false,
    }
}

/// How files are selected: the globs a file must match and must not
/// match, whether hidden files are offered, and whether ignore files are
/// disregarded.
#[derive(Debug, Clone)]
pub struct Selection {
    pub wanted: Vec<String>,
    pub unwanted: Vec<String>,
    pub hidden: bool,
    pub no_ignore: bool,
}

impl Default for Selection {
    fn default() -> (r: Selection)
        ensures
            r.wanted@.len() == 0,
            r.unwanted@.len() == 0,
            !r.hidden,
            !r.no_ignore,
    {
        Selection { wanted: Vec::new(), unwanted: Vec::new(), hidden: false, no_ignore: false }
    }
}

/// A selected file.
#[derive(Debug, Clone)]
pub struct Found {
    pub target: FileTarget,
    pub is_symlink: bool,
}

/// Manages transformation plugins; none exist yet.
pub struct PluginManager {}

impl PluginManager {
    /// Creates a plugin manager.
    pub fn new() -> (r: PluginManager) {
        PluginManager {  }
    }
}

impl Default for PluginManager {
    fn default() -> (r: PluginManager) {
        PluginManager::new()
    }
}

} // verus!
