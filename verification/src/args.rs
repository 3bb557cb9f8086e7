//! The command-line-facing argument record, as plain values, and its
//! translation into the engine's configuration.

use vstd::prelude::*;
use crate::types::CountConfig;
use crate::types::SortOrder;

verus! {

/// The sort order a caller asks for.
#[derive(Debug, Clone)]
pub enum SortBy {
    Lines,
    Name,
    Unsorted,
}

/// The finalized command-line arguments. The caller parses its flags into
/// this record; the engine sees only the configuration built from it.
#[derive(Debug, Clone)]
pub struct Args {
    /// Files or directories to count; empty means the current directory.
    pub paths: Vec<String>,
    /// Extension filters, without the leading dot.
    pub ext: Vec<String>,
    /// Glob filters.
    pub glob: Vec<String>,
    /// The order of the report's file entries.
    pub sort: SortBy,
    /// Include hidden files and bypass all ignore rules.
    pub no_ignore: bool,
    /// Render the report as JSON.
    pub json: bool,
    /// Show only totals and the per-extension breakdown.
    pub summary: bool,
    /// Show only the first N files of the report.
    pub top: Option<usize>,
}

impl Args {
    /// Builds the engine's configuration: the roots and filters carry over
    /// unchanged, ignore rules stay on unless `no_ignore` turns them off,
    /// and the sort mode translates one to one.
    pub fn to_config(&self) -> (c: CountConfig)
        ensures
            c.paths@ == self.paths@,
            c.extensions@ == self.ext@,
            c.globs@ == self.glob@,
            c.use_ignore == !self.no_ignore,
            c.sort is Lines <==> self.sort is Lines,
            c.sort is Name <==> self.sort is Name,
            c.sort is Unsorted <==> self.sort is Unsorted,
    {
        let paths = clone_strings(&self.paths);
        let extensions = clone_strings(&self.ext);
        let globs = clone_strings(&self.glob);
        CountConfig {
            paths,
            extensions,
            globs,
            use_ignore: !self.no_ignore,
            sort: match self.sort {
                SortBy::Lines => SortOrder::Lines,
                SortBy::Name => SortOrder::Name,
                SortBy::Unsorted => SortOrder::Unsorted,
            },
        }
    }
}

/// A copy of a list of strings, equal to it value for value.
fn clone_strings(v: &Vec<String>) -> (r: Vec<String>)
    ensures
        r@ == v@,
{
    let ghost vs = v@;
    let mut r: Vec<String> = Vec::new();
    let mut i: usize = 0;
    while i < v.len()
        invariant
            i <= vs.len(),
            v@ == vs,
            r@ =~= vs.take(i as int),
        decreases vs.len() - i,
    {
        let s = v[i].clone();
        r.push(s);
        proof {
            assert(vs.take(i + 1) =~= vs.take(i as int).push(vs[i as int]));
        }
        i = i + 1;
    }
    proof {
        assert(r@ =~= vs);
    }
    r
}

} // verus!
