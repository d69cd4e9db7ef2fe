use crate::text::{signed_decimal, signed_decimal_text};
use vstd::prelude::*;

verus! {

/// Snapshot summary of one persisted project.
#[derive(Debug, Clone)]
pub struct ProjectDetail {
    pub name: String,
    pub snapshot_count: i64,
    pub latest_ref: Option<String>,
    pub latest_hash: Option<String>,
}

/// Row counts of the persisted tables, with a per-project breakdown.
#[derive(Debug)]
pub struct DbStats {
    pub project_count: i64,
    pub snapshot_count: i64,
    pub package_count: i64,
    pub module_count: i64,
    pub declaration_count: i64,
    pub child_count: i64,
    pub dependency_count: i64,
    pub project_details: Vec<ProjectDetail>,
}

/// What a project's line says of its latest snapshot.
pub open spec fn latest_text(d: ProjectDetail) -> Seq<char> {
    match (d.latest_ref, d.latest_hash) {
        (Some(r), Some(h)) => "latest: "@ + r@ + "@"@ + h@,
        (Some(r), None) => "latest: "@ + r@,
        (None, Some(h)) => "latest: "@ + h@,
        (None, None) => "no snapshots"@,
    }
}

/// The line of the report for one project.
pub open spec fn detail_line(d: ProjectDetail) -> Seq<char> {
    "    "@ + d.name@ + ": "@ + signed_decimal(d.snapshot_count as int) + " snapshots ("@
        + latest_text(d) + ")"@
}

/// A line `  <n> <what>` of the report.
pub open spec fn count_line(n: i64, what: Seq<char>) -> Seq<char> {
    "  "@ + signed_decimal(n as int) + what
}

/// The lines of the report: a heading; the project count and one line per
/// project when there is any project; then the other counts.
pub open spec fn report_lines(s: DbStats) -> Seq<Seq<char>> {
    let projects = if s.project_count > 0 {
        seq![count_line(s.project_count, " projects"@)] + s.project_details@.map_values(
            |d: ProjectDetail| detail_line(d),
        )
    } else {
        Seq::empty()
    };
    seq!["Database contains:"@] + projects + seq![
        count_line(s.package_count, " packages"@),
        count_line(s.module_count, " modules"@),
        count_line(s.declaration_count, " declarations"@),
        count_line(s.child_count, " child declarations"@),
        count_line(s.dependency_count, " dependencies"@),
    ]
}

/// `lines` joined with a line break between each two.
pub open spec fn joined_lines(lines: Seq<Seq<char>>) -> Seq<char>
    decreases lines.len(),
{
    if lines.len() == 0 {
        Seq::empty()
    } else if lines.len() == 1 {
        lines[0]
    } else {
        joined_lines(lines.drop_last()) + "\n"@ + lines.last()
    }
}

fn join_lines(lines: &Vec<String>) -> (r: String)
    ensures
        r@ == joined_lines(lines@.map_values(|l: String| l@)),
{
    let mut out = String::new();
    let mut i: usize = 0;
    while i < lines.len()
        invariant
            i <= lines@.len(),
            out@ == joined_lines(lines@.take(i as int).map_values(|l: String| l@)),
        decreases lines@.len() - i,
    {
        let ghost prev = lines@.take(i as int).map_values(|l: String| l@);
        let ghost next = lines@.take(i + 1).map_values(|l: String| l@);
        proof {
            assert(next.drop_last() =~= prev);
            assert(next.last() == lines@[i as int]@);
        }
        if i > 0 {
            out.append("\n");
        }
        out.append(lines[i].as_str());
        proof {
            if i == 0 {
                assert(out@ =~= next[0]);
            }
        }
        i = i + 1;
    }
    proof {
        assert(lines@.take(lines@.len() as int) =~= lines@);
    }
    out
}

fn count_text(n: i64, what: &str) -> (r: String)
    ensures
        r@ == count_line(n, what@),
{
    let mut s = String::from_str("  ");
    s.append(signed_decimal_text(n).as_str());
    s.append(what);
    s
}

fn detail_text(d: &ProjectDetail) -> (r: String)
    ensures
        r@ == detail_line(*d),
{
    let mut latest = String::new();
    match (&d.latest_ref, &d.latest_hash) {
        (Some(r), Some(h)) => {
            latest.append("latest: ");
            latest.append(r.as_str());
            latest.append("@");
            latest.append(h.as_str());
        },
        (Some(r), None) => {
            latest.append("latest: ");
            latest.append(r.as_str());
        },
        (None, Some(h)) => {
            latest.append("latest: ");
            latest.append(h.as_str());
        },
        (None, None) => {
            latest.append("no snapshots");
        },
    }
    let mut s = String::from_str("    ");
    s.append(d.name.as_str());
    s.append(": ");
    s.append(signed_decimal_text(d.snapshot_count).as_str());
    s.append(" snapshots (");
    s.append(latest.as_str());
    s.append(")");
    s
}

impl DbStats {
    pub fn report(&self) -> (r: String)
        ensures
            r@ == joined_lines(report_lines(*self)),
    {
        let mut lines: Vec<String> = Vec::new();
        lines.push(String::from_str("Database contains:"));
        if self.project_count > 0 {
            lines.push(count_text(self.project_count, " projects"));
            let mut i: usize = 0;
            while i < self.project_details.len()
                invariant
                    i <= self.project_details@.len(),
                    lines@.map_values(|l: String| l@) == seq!["Database contains:"@] + seq![
                        count_line(self.project_count, " projects"@),
                    ] + self.project_details@.take(i as int).map_values(
                        |d: ProjectDetail| detail_line(d),
                    ),
                decreases self.project_details@.len() - i,
            {
                let ghost before = lines@;
                lines.push(detail_text(&self.project_details[i]));
                proof {
                    assert(self.project_details@.take(i + 1) =~= self.project_details@.take(
                        i as int,
                    ).push(self.project_details@[i as int]));
                    assert(lines@.map_values(|l: String| l@) =~= before.map_values(|l: String| l@).push(
                        detail_line(self.project_details@[i as int]),
                    ));
                    assert(lines@.map_values(|l: String| l@) =~= seq!["Database contains:"@] + seq![
                        count_line(self.project_count, " projects"@),
                    ] + self.project_details@.take(i + 1).map_values(|d: ProjectDetail| detail_line(d)));
                }
                i = i + 1;
            }
            proof {
                assert(self.project_details@.take(i as int) =~= self.project_details@);
            }
        }
        let ghost projects = if self.project_count > 0 {
            seq![count_line(self.project_count, " projects"@)] + self.project_details@.map_values(
                |d: ProjectDetail| detail_line(d),
            )
        } else {
            Seq::empty()
        };
        let ghost head = lines@;
        assert(head.map_values(|l: String| l@) =~= seq!["Database contains:"@] + projects);
        let a = count_text(self.package_count, " packages");
        let b = count_text(self.module_count, " modules");
        let c = count_text(self.declaration_count, " declarations");
        let d = count_text(self.child_count, " child declarations");
        let e = count_text(self.dependency_count, " dependencies");
        let ghost tail = seq![a@, b@, c@, d@, e@];
        lines.push(a);
        lines.push(b);
        lines.push(c);
        lines.push(d);
        lines.push(e);
        assert(lines@.map_values(|l: String| l@) =~= head.map_values(|l: String| l@) + tail);
        assert(lines@.map_values(|l: String| l@) =~= report_lines(*self));
        join_lines(&lines)
    }
}

} // verus!
