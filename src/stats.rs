use crate::entities::{ChildDeclaration, Declaration, Module, PackageDependency, PackageVersion, Snapshot};
use crate::text::{decimal, decimal_text};
use vstd::prelude::*;

verus! {

/// Statistics of one load: how many rows of each kind were handed to the
/// store (attempted, not necessarily new), dependency edges, parse failures,
/// and elapsed time.
#[derive(Debug, Default)]
pub struct LoadStats {
    pub project_name: String,
    pub snapshot_label: Option<String>,
    pub packages_loaded: usize,
    pub modules_loaded: usize,
    pub declarations_loaded: usize,
    pub child_declarations_loaded: usize,
    pub dependencies_loaded: usize,
    pub parse_errors: usize,
    pub elapsed_ms: u64,
}

/// Aggregate statistics of a scan over several projects.
#[derive(Debug, Default)]
pub struct ScanStats {
    pub projects_loaded: usize,
    pub projects_skipped: usize,
    pub total_packages: usize,
    pub total_modules: usize,
    pub total_declarations: usize,
    pub total_children: usize,
    pub total_parse_errors: usize,
    pub elapsed_ms: u64,
}

/// The one-line summary of a load.
pub open spec fn load_report(s: LoadStats) -> Seq<char> {
    let label = match s.snapshot_label {
        Some(l) => " ("@ + l@ + ")"@,
        None => Seq::empty(),
    };
    "Loaded "@ + s.project_name@ + label + ": "@ + decimal(s.packages_loaded as nat) + " packages, "@
        + decimal(s.modules_loaded as nat) + " modules, "@ + decimal(s.declarations_loaded as nat)
        + " declarations, "@ + decimal(s.child_declarations_loaded as nat) + " children in "@
        + decimal(s.elapsed_ms as nat) + "ms ("@ + decimal(s.parse_errors as nat)
        + " parse errors)"@
}

/// The one-line summary of a scan.
pub open spec fn scan_report(s: ScanStats) -> Seq<char> {
    "Scanned "@ + decimal(s.projects_loaded as nat) + " projects ("@ + decimal(
        s.projects_skipped as nat,
    ) + " skipped): "@ + decimal(s.total_packages as nat) + " packages, "@ + decimal(
        s.total_modules as nat,
    ) + " modules, "@ + decimal(s.total_declarations as nat) + " declarations, "@ + decimal(
        s.total_children as nat,
    ) + " children in "@ + decimal(s.elapsed_ms as nat) + "ms ("@ + decimal(
        s.total_parse_errors as nat,
    ) + " parse errors)"@
}

impl LoadStats {
    /// Statistics of one load of `project_name` into `snapshot`: the rows
    /// handed to the store for each kind (the manifest's packages and the
    /// workspace package, the dependency edges, the modules, declarations and
    /// children committed), the documents that failed to parse, and the
    /// elapsed time.
    pub fn for_load(
        project_name: &str,
        snapshot: &Snapshot,
        candidates: &Vec<PackageVersion>,
        edges: &Vec<PackageDependency>,
        modules: &Vec<Module>,
        declarations: &Vec<Declaration>,
        children: &Vec<ChildDeclaration>,
        parse_errors: usize,
        elapsed_ms: u64,
    ) -> (r: LoadStats)
        requires
            candidates@.len() < usize::MAX,
        ensures
            r.project_name@ == project_name@,
            r.snapshot_label == snapshot.label,
            r.packages_loaded == candidates@.len() + 1,
            r.modules_loaded == modules@.len(),
            r.declarations_loaded == declarations@.len(),
            r.child_declarations_loaded == children@.len(),
            r.dependencies_loaded == edges@.len(),
            r.parse_errors == parse_errors,
            r.elapsed_ms == elapsed_ms,
    {
        let snapshot_label = match &snapshot.label {
            Some(l) => Some(l.clone()),
            None => None,
        };
        LoadStats {
            project_name: project_name.to_owned(),
            snapshot_label,
            packages_loaded: candidates.len() + 1,
            modules_loaded: modules.len(),
            declarations_loaded: declarations.len(),
            child_declarations_loaded: children.len(),
            dependencies_loaded: edges.len(),
            parse_errors,
            elapsed_ms,
        }
    }

    pub fn report(&self) -> (r: String)
        ensures
            r@ == load_report(*self),
    {
        let mut s = String::from_str("Loaded ");
        s.append(self.project_name.as_str());
        match &self.snapshot_label {
            Some(l) => {
                s.append(" (");
                s.append(l.as_str());
                s.append(")");
            },
            None => {},
        }
        s.append(": ");
        s.append(decimal_text(self.packages_loaded as u64).as_str());
        s.append(" packages, ");
        s.append(decimal_text(self.modules_loaded as u64).as_str());
        s.append(" modules, ");
        s.append(decimal_text(self.declarations_loaded as u64).as_str());
        s.append(" declarations, ");
        s.append(decimal_text(self.child_declarations_loaded as u64).as_str());
        s.append(" children in ");
        s.append(decimal_text(self.elapsed_ms).as_str());
        s.append("ms (");
        s.append(decimal_text(self.parse_errors as u64).as_str());
        s.append(" parse errors)");
        s
    }

    /// Adds the counts of `other` to these; name, label and time stay.
    pub fn merge(&mut self, other: &LoadStats)
        requires
            old(self).packages_loaded + other.packages_loaded <= usize::MAX,
            old(self).modules_loaded + other.modules_loaded <= usize::MAX,
            old(self).declarations_loaded + other.declarations_loaded <= usize::MAX,
            old(self).child_declarations_loaded + other.child_declarations_loaded <= usize::MAX,
            old(self).dependencies_loaded + other.dependencies_loaded <= usize::MAX,
            old(self).parse_errors + other.parse_errors <= usize::MAX,
        ensures
            final(self).packages_loaded == old(self).packages_loaded + other.packages_loaded,
            final(self).modules_loaded == old(self).modules_loaded + other.modules_loaded,
            final(self).declarations_loaded == old(self).declarations_loaded
                + other.declarations_loaded,
            final(self).child_declarations_loaded == old(self).child_declarations_loaded
                + other.child_declarations_loaded,
            final(self).dependencies_loaded == old(self).dependencies_loaded
                + other.dependencies_loaded,
            final(self).parse_errors == old(self).parse_errors + other.parse_errors,
            final(self).project_name == old(self).project_name,
            final(self).snapshot_label == old(self).snapshot_label,
            final(self).elapsed_ms == old(self).elapsed_ms,
    {
        self.packages_loaded = self.packages_loaded + other.packages_loaded;
        self.modules_loaded = self.modules_loaded + other.modules_loaded;
        self.declarations_loaded = self.declarations_loaded + other.declarations_loaded;
        self.child_declarations_loaded = self.child_declarations_loaded
            + other.child_declarations_loaded;
        self.dependencies_loaded = self.dependencies_loaded + other.dependencies_loaded;
        self.parse_errors = self.parse_errors + other.parse_errors;
    }
}

impl ScanStats {
    /// Counts one more loaded project and adds its statistics to the totals.
    pub fn add(&mut self, stats: &LoadStats)
        requires
            old(self).projects_loaded + 1 <= usize::MAX,
            old(self).total_packages + stats.packages_loaded <= usize::MAX,
            old(self).total_modules + stats.modules_loaded <= usize::MAX,
            old(self).total_declarations + stats.declarations_loaded <= usize::MAX,
            old(self).total_children + stats.child_declarations_loaded <= usize::MAX,
            old(self).total_parse_errors + stats.parse_errors <= usize::MAX,
        ensures
            final(self).projects_loaded == old(self).projects_loaded + 1,
            final(self).total_packages == old(self).total_packages + stats.packages_loaded,
            final(self).total_modules == old(self).total_modules + stats.modules_loaded,
            final(self).total_declarations == old(self).total_declarations
                + stats.declarations_loaded,
            final(self).total_children == old(self).total_children
                + stats.child_declarations_loaded,
            final(self).total_parse_errors == old(self).total_parse_errors + stats.parse_errors,
            final(self).projects_skipped == old(self).projects_skipped,
            final(self).elapsed_ms == old(self).elapsed_ms,
    {
        self.projects_loaded = self.projects_loaded + 1;
        self.total_packages = self.total_packages + stats.packages_loaded;
        self.total_modules = self.total_modules + stats.modules_loaded;
        self.total_declarations = self.total_declarations + stats.declarations_loaded;
        self.total_children = self.total_children + stats.child_declarations_loaded;
        self.total_parse_errors = self.total_parse_errors + stats.parse_errors;
    }

    pub fn report(&self) -> (r: String)
        ensures
            r@ == scan_report(*self),
    {
        let mut s = String::from_str("Scanned ");
        s.append(decimal_text(self.projects_loaded as u64).as_str());
        s.append(" projects (");
        s.append(decimal_text(self.projects_skipped as u64).as_str());
        s.append(" skipped): ");
        s.append(decimal_text(self.total_packages as u64).as_str());
        s.append(" packages, ");
        s.append(decimal_text(self.total_modules as u64).as_str());
        s.append(" modules, ");
        s.append(decimal_text(self.total_declarations as u64).as_str());
        s.append(" declarations, ");
        s.append(decimal_text(self.total_children as u64).as_str());
        s.append(" children in ");
        s.append(decimal_text(self.elapsed_ms).as_str());
        s.append("ms (");
        s.append(decimal_text(self.total_parse_errors as u64).as_str());
        s.append(" parse errors)");
        s
    }
}

} // verus!
