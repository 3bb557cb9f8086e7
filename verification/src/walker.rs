//! The traversal filter and the counting engine: walks the configured roots
//! through the `ignore` crate, counts every regular file that survives the
//! filters (in parallel, through `rayon`), and aggregates the counts into
//! the final report.

use std::io::Write;
use rayon::iter::IntoParallelRefIterator;
use rayon::iter::ParallelIterator;
use vstd::prelude::*;
use vstd::string::StringExecFns;
use crate::aggregate::bucket_files_total;
use crate::aggregate::bucket_lines_total;
use crate::aggregate::buckets_correct;
use crate::aggregate::group_by_extension;
use crate::aggregate::lemma_buckets_reorder;
use crate::aggregate::saturated;
use crate::aggregate::sort_buckets;
use crate::aggregate::sort_files;
use crate::aggregate::sorted_buckets_desc;
use crate::aggregate::sorted_by_lines_desc;
use crate::aggregate::sorted_by_name;
use crate::aggregate::sum_lines;
use crate::aggregate::total_lines_of;
use crate::counter::count_lines;
use crate::types::CountConfig;
use crate::types::CountResult;
use crate::types::FileCount;

verus! {

#[verifier::external_type_specification]
#[verifier::external_body]
pub struct ExWalkBuilder(ignore::WalkBuilder);

#[verifier::external_type_specification]
#[verifier::external_body]
pub struct ExWalk(ignore::Walk);

#[verifier::external_type_specification]
#[verifier::external_body]
pub struct ExDirEntry(ignore::DirEntry);

#[verifier::external_type_specification]
#[verifier::external_body]
pub struct ExIgnoreError(ignore::Error);

#[verifier::external_type_specification]
#[verifier::external_body]
pub struct ExOverrideBuilder(ignore::overrides::OverrideBuilder);

#[verifier::external_type_specification]
#[verifier::external_body]
pub struct ExOverride(ignore::overrides::Override);

/// One step of a traversal: the next entry's path together with whether it
/// is a regular file, an entry passed over (a traversal error), or the end
/// of the walk.
pub enum WalkStep {
    Entry { path: String, regular_file: bool },
    Skipped,
    Done,
}

/// Relies on ignore::WalkBuilder::new: starts a traversal rooted at `root`,
/// with the crate's standard filters (hidden entries and ignore files) on.
#[verifier::external_body]
fn walk_builder_new(root: &String) -> ignore::WalkBuilder {
    ignore::WalkBuilder::new(root.as_str())
}

/// Relies on ignore::WalkBuilder::add: adds one more root to the traversal.
#[verifier::external_body]
fn walk_builder_add(builder: &mut ignore::WalkBuilder, root: &String) {
    builder.add(root.as_str());
}

/// Relies on ignore::WalkBuilder::hidden: stops excluding hidden entries.
#[verifier::external_body]
fn walk_builder_keep_hidden(builder: &mut ignore::WalkBuilder) {
    builder.hidden(false);
}

/// Relies on ignore::WalkBuilder::ignore: stops reading `.ignore` files.
#[verifier::external_body]
fn walk_builder_no_dotignore(builder: &mut ignore::WalkBuilder) {
    builder.ignore(false);
}

/// Relies on ignore::WalkBuilder::git_ignore: stops reading `.gitignore`
/// files.
#[verifier::external_body]
fn walk_builder_no_gitignore(builder: &mut ignore::WalkBuilder) {
    builder.git_ignore(false);
}

/// Relies on ignore::WalkBuilder::git_global: stops reading the global
/// gitignore file.
#[verifier::external_body]
fn walk_builder_no_git_global(builder: &mut ignore::WalkBuilder) {
    builder.git_global(false);
}

/// Relies on ignore::WalkBuilder::git_exclude: stops reading repository
/// exclude files.
#[verifier::external_body]
fn walk_builder_no_git_exclude(builder: &mut ignore::WalkBuilder) {
    builder.git_exclude(false);
}

/// Relies on ignore::overrides::OverrideBuilder::new: starts an empty set of
/// include globs, matched relative to `root`.
#[verifier::external_body]
fn override_builder_new(root: &String) -> ignore::overrides::OverrideBuilder {
    ignore::overrides::OverrideBuilder::new(root.as_str())
}

/// Relies on ignore::overrides::OverrideBuilder::add: adds one include glob;
/// a malformed pattern is dropped rather than reported, as the filters are
/// best-effort.
#[verifier::external_body]
fn override_builder_add(builder: &mut ignore::overrides::OverrideBuilder, glob: &String) {
    builder.add(glob.as_str()).ok();
}

/// Relies on ignore::overrides::OverrideBuilder::build: compiles the globs
/// into an override set; a set that fails to build is None, and the filters
/// then stay off.
#[verifier::external_body]
fn override_builder_build(builder: &ignore::overrides::OverrideBuilder) -> Option<
    ignore::overrides::Override,
> {
    builder.build().ok()
}

/// Relies on ignore::WalkBuilder::overrides: installs the include globs; a
/// file is yielded only when it matches one of them.
#[verifier::external_body]
fn walk_builder_overrides(builder: &mut ignore::WalkBuilder, ov: ignore::overrides::Override) {
    builder.overrides(ov);
}

/// Relies on ignore::WalkBuilder::build: freezes the configuration into a
/// directory walker.
#[verifier::external_body]
fn walk_builder_build(builder: &ignore::WalkBuilder) -> ignore::Walk {
    builder.build()
}

/// Relies on ignore::Walk::next, ignore::DirEntry::file_type and
/// ignore::DirEntry::into_path: hands back the next step of the traversal,
/// the entry's path paired with whether it is a regular file (an entry
/// without a file type, such as standard input, counts as none). A traversal
/// error is skipped without ending the run; which entries to keep is decided
/// by the caller.
#[verifier::external_body]
fn walk_next(walk: &mut ignore::Walk) -> WalkStep {
    match walk.next() {
        None => WalkStep::Done,
        Some(Err(_)) => WalkStep::Skipped,
        Some(Ok(entry)) => {
            let regular_file = entry.file_type().map_or(false, |t| t.is_file());
            WalkStep::Entry {
                path: entry.into_path().to_string_lossy().into_owned(),
                regular_file,
            }
        },
    }
}

/// Relies on std::io::Write::write_fmt through std::io::stderr: prints one
/// line on the diagnostic channel, never on the data channel.
#[verifier::external_body]
fn warn(line: &String) {
    let _ = writeln!(std::io::stderr(), "{}", line);
}

/// The include glob standing for one extension filter: `*.` followed by the
/// extension.
fn ext_glob(ext: &String) -> (r: String)
    ensures
        r@ == "*."@ + ext@,
{
    let mut pat = String::from_str("*.");
    pat.append(ext.as_str());
    pat
}

/// Counts one file, pairing its path with its line count. A file that
/// cannot be read is reported on the warning channel and dropped from the
/// run.
pub fn count_one(path: &String) -> (r: Option<FileCount>)
    ensures
        r matches Some(fc) ==> fc.path@ == path@,
{
    match count_lines(path).0 {
        Ok(lines) => Some(FileCount { path: path.clone(), lines }),
        Err(err) => {
            let mut line = String::from_str("warning: ");
            line.append(path.as_str());
            line.append(": ");
            line.append(err.message.as_str());
            warn(&line);
            None
        },
    }
}

/// Relies on rayon's par_iter, filter_map and collect: applies `count_one`
/// to every path on a bounded worker pool and collects the successful
/// counts. Each collected value is one of `count_one`'s results, whose
/// contract pins its path to the path it was called on, and `filter_map`
/// yields at most one value per path.
#[verifier::external_body]
fn count_all(paths: &Vec<String>) -> (r: Vec<FileCount>)
    ensures
        r@.len() <= paths@.len(),
        forall|i: int|
            0 <= i < r@.len() ==> exists|j: int|
                0 <= j < paths@.len() && (#[trigger] r@[i]).path@ == paths@[j]@,
{
    paths.par_iter().filter_map(|p| count_one(p)).collect()
}

/// Runs the counting engine: walks the configured roots with the configured
/// filters, counts every regular file that survives them, orders the counts
/// as asked, and builds the report. The totals always describe the whole
/// `files` sequence, and the per-extension buckets break it down exactly;
/// a missing root contributes nothing and nothing here fails.
pub fn count(config: &CountConfig) -> (r: CountResult)
    ensures
        r.total_files as int == r.files@.len(),
        r.total_lines as int == saturated(sum_lines(r.files@)),
        sum_lines(r.files@) <= u64::MAX ==> r.total_lines as int == sum_lines(r.files@),
        config.sort is Lines ==> sorted_by_lines_desc(r.files@),
        config.sort is Name ==> sorted_by_name(r.files@),
        buckets_correct(r.files@, r.by_extension@),
        sorted_buckets_desc(r.by_extension@),
        bucket_files_total(r.by_extension@) == r.files@.len(),
        sum_lines(r.files@) <= u64::MAX ==> bucket_lines_total(r.by_extension@) == sum_lines(
            r.files@,
        ),
{
    // Resolve the roots once: the current directory stands in when none are
    // given.
    let mut roots: Vec<String> = Vec::new();
    if config.paths.len() == 0 {
        roots.push(String::from_str("."));
    } else {
        let n = config.paths.len();
        let mut i: usize = 0;
        while i < n
            invariant
                i <= n == config.paths@.len(),
                roots@.len() == i,
            decreases n - i,
        {
            roots.push(config.paths[i].clone());
            i = i + 1;
        }
    }
    let mut builder = walk_builder_new(&roots[0]);
    let nroots = roots.len();
    let mut i: usize = 1;
    while i < nroots
        invariant
            nroots == roots@.len(),
        decreases nroots - i,
    {
        walk_builder_add(&mut builder, &roots[i]);
        i = i + 1;
    }
    if !config.use_ignore {
        walk_builder_keep_hidden(&mut builder);
        walk_builder_no_dotignore(&mut builder);
        walk_builder_no_gitignore(&mut builder);
        walk_builder_no_git_global(&mut builder);
        walk_builder_no_git_exclude(&mut builder);
    }
    // Extension filters and glob filters are one override set: a file
    // matching any of them is included.
    if config.extensions.len() > 0 || config.globs.len() > 0 {
        let mut overrides = override_builder_new(&roots[0]);
        let next = config.extensions.len();
        let mut i: usize = 0;
        while i < next
            invariant
                next == config.extensions@.len(),
            decreases next - i,
        {
            let pat = ext_glob(&config.extensions[i]);
            override_builder_add(&mut overrides, &pat);
            i = i + 1;
        }
        let nglob = config.globs.len();
        let mut i: usize = 0;
        while i < nglob
            invariant
                nglob == config.globs@.len(),
            decreases nglob - i,
        {
            override_builder_add(&mut overrides, &config.globs[i]);
            i = i + 1;
        }
        match override_builder_build(&overrides) {
            Some(ov) => walk_builder_overrides(&mut builder, ov),
            None => {},
        }
    }
    // First phase: collect the candidate paths. A walk over finitely many
    // directory entries ends; the countdown makes it provably finite.
    let mut walk = walk_builder_build(&builder);
    let mut entries: Vec<String> = Vec::new();
    let mut steps_left: u64 = u64::MAX;
    while steps_left > 0
        decreases steps_left,
    {
        steps_left = steps_left - 1;
        match walk_next(&mut walk) {
            WalkStep::Done => {
                break ;
            },
            WalkStep::Skipped => {},
            WalkStep::Entry { path, regular_file } => {
                // Only regular files are counted; directories, symlinks to
                // directories and other non-regular entries are passed over.
                if regular_file {
                    entries.push(path);
                }
            },
        }
    }
    // Second phase: count every candidate independently, in parallel.
    let mut files = count_all(&entries);
    // Third phase: order the counts and compute the totals.
    sort_files(&mut files, &config.sort);
    let total_lines = total_lines_of(&files);
    let total_files = files.len() as u64;
    // Fourth phase: the per-extension breakdown, largest totals first.
    let mut by_extension = group_by_extension(&files);
    let ghost unsorted_buckets = by_extension@;
    sort_buckets(&mut by_extension);
    proof {
        lemma_buckets_reorder(files@, unsorted_buckets, by_extension@);
    }
    CountResult { files, total_lines, total_files, by_extension }
}

} // verus!
