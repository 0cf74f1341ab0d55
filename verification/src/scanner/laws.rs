//! What a whole scan promises of what its detectors find.

use vstd::prelude::*;
use crate::text::{decimal, plural_of};
use super::css::{css_outcome, css_paths, gather_all};
use super::devserver::devserver_outcome;
use super::drupal::drupal_outcome;
use super::log::Logged;
use super::tailwind::tailwind_outcome;
use super::types::{founds, servers, warning_views, Found, FrameworkFound, Kind, OutputFound};
use super::walk::Given;
use super::{
    after_css, after_framework, after_servers, after_stage, all_framework_rows, all_stages,
    configured_count, distinct_frameworks, first_stages, framework_rows, is_outcome, row_views,
    stage_order, warning_rows, Progress, ScanOutcome, Stage, Staged, Surroundings, Timings,
};

verus! {

/// The Tailwind detector comes first, on a scan that has found nothing and has
/// ten megabytes to read.
#[verifier::rlimit(60)]
pub proof fn the_tailwind_detector_comes_first(
    log: Logged,
    files: Seq<Seq<char>>,
    disk: Seq<(Seq<char>, Given)>,
    around: Surroundings,
    took: Timings,
)
    ensures
        ({
            let r = first_stages(1, log, files, disk, around, took);
            let s = after_stage(
                first_stages(0, log, files, disk, around, took),
                Stage::Tailwind,
                files,
                disk,
                around,
            );
            r.progress == s.progress && r.left == s.left
        }),
        first_stages(0, log, files, disk, around, took).left == 10_485_760,
        first_stages(0, log, files, disk, around, took).progress.breakpoints.len() == 0,
        first_stages(0, log, files, disk, around, took).progress.servers.len() == 0,
{
    assert(stage_order()[0] == Stage::Tailwind);
}

/// The Drupal detector comes second, with what the first left to read.
#[verifier::rlimit(60)]
pub proof fn the_drupal_detector_comes_second(
    log: Logged,
    files: Seq<Seq<char>>,
    disk: Seq<(Seq<char>, Given)>,
    around: Surroundings,
    took: Timings,
)
    ensures
        ({
            let r = first_stages(2, log, files, disk, around, took);
            let s = after_stage(
                first_stages(1, log, files, disk, around, took),
                Stage::Drupal,
                files,
                disk,
                around,
            );
            r.progress == s.progress && r.left == s.left
        }),
{
    assert(stage_order()[1] == Stage::Drupal);
}

/// The CSS detector comes third, with what the second left to read.
#[verifier::rlimit(60)]
pub proof fn the_css_detector_comes_third(
    log: Logged,
    files: Seq<Seq<char>>,
    disk: Seq<(Seq<char>, Given)>,
    around: Surroundings,
    took: Timings,
)
    ensures
        ({
            let r = first_stages(3, log, files, disk, around, took);
            let s = after_stage(
                first_stages(2, log, files, disk, around, took),
                Stage::Css,
                files,
                disk,
                around,
            );
            r.progress == s.progress && r.left == s.left
        }),
{
    assert(stage_order()[2] == Stage::Css);
}

/// The dev server detector comes last, with what the third left to read.
#[verifier::rlimit(60)]
pub proof fn the_dev_server_detector_comes_last(
    log: Logged,
    files: Seq<Seq<char>>,
    disk: Seq<(Seq<char>, Given)>,
    around: Surroundings,
    took: Timings,
)
    ensures
        ({
            let r = first_stages(4, log, files, disk, around, took);
            let s = after_stage(
                first_stages(3, log, files, disk, around, took),
                Stage::DevServer,
                files,
                disk,
                around,
            );
            r.progress == s.progress && r.left == s.left
        }),
        all_stages(log, files, disk, around, took) == first_stages(
            4,
            log,
            files,
            disk,
            around,
            took,
        ),
{
    assert(stage_order().len() == 4);
    assert(stage_order()[3] == Stage::DevServer);
}

/// What the Tailwind detector finds is added to what there is: its breakpoints,
/// its warnings and its frameworks.
pub proof fn what_tailwind_configures_is_kept(
    s: Staged,
    files: Seq<Seq<char>>,
    disk: Seq<(Seq<char>, Given)>,
    around: Surroundings,
)
    ensures
        ({
            let got = tailwind_outcome(files, disk, s.left);
            let r = after_stage(s, Stage::Tailwind, files, disk, around);
            &&& r.progress.breakpoints == s.progress.breakpoints + got.out.breakpoints
            &&& r.progress.warnings == s.progress.warnings + got.out.warnings
            &&& r.progress.frameworks == s.progress.frameworks + distinct_frameworks(
                got.out.frameworks,
            )
            &&& r.progress.servers == s.progress.servers
            &&& r.left == got.left
        }),
{
}

/// What the Drupal detector finds is added to what there is.
pub proof fn what_drupal_configures_is_kept(
    s: Staged,
    files: Seq<Seq<char>>,
    disk: Seq<(Seq<char>, Given)>,
    around: Surroundings,
)
    ensures
        ({
            let got = drupal_outcome(files, around.dirs, disk, s.left);
            let r = after_stage(s, Stage::Drupal, files, disk, around);
            &&& r.progress.breakpoints == s.progress.breakpoints + got.out.breakpoints
            &&& r.progress.warnings == s.progress.warnings + got.out.warnings
            &&& r.progress.frameworks == s.progress.frameworks + distinct_frameworks(
                got.out.frameworks,
            )
            &&& r.progress.servers == s.progress.servers
            &&& r.left == got.left
        }),
{
}

/// What the CSS detector finds is added to what there is.
pub proof fn what_the_stylesheets_use_is_kept(
    s: Staged,
    files: Seq<Seq<char>>,
    disk: Seq<(Seq<char>, Given)>,
    around: Surroundings,
)
    ensures
        ({
            let read = gather_all(css_paths(files), disk, files, s.left);
            let got = css_outcome(read).0;
            let r = after_stage(s, Stage::Css, files, disk, around);
            &&& r.progress.breakpoints == s.progress.breakpoints + got.breakpoints
            &&& r.progress.warnings == s.progress.warnings + got.warnings
            &&& r.progress.frameworks == s.progress.frameworks
            &&& r.progress.servers == s.progress.servers
            &&& r.left == read.left
        }),
{
}

/// What the dev server detector finds is added to what there is.
pub proof fn the_dev_servers_are_kept(
    s: Staged,
    files: Seq<Seq<char>>,
    disk: Seq<(Seq<char>, Given)>,
    around: Surroundings,
)
    ensures
        ({
            let got = devserver_outcome(files, disk, s.left, around.late);
            let r = after_stage(s, Stage::DevServer, files, disk, around);
            &&& r.progress.breakpoints == s.progress.breakpoints
            &&& r.progress.warnings == s.progress.warnings
            &&& r.progress.frameworks == s.progress.frameworks
            &&& r.progress.servers == s.progress.servers + got.found
        }),
{
}

/// A report holds every width that was found, itself or by one within two
/// pixels of it; it says that there are none exactly when none was found, in a
/// row of its own.
pub proof fn a_report_holds_every_width_found(
    r: ScanOutcome,
    p: Progress,
    root: Seq<char>,
    scanned: nat,
    log: Logged,
)
    requires
        is_outcome(r, p, root, scanned, log),
    ensures
        ({
            let m = founds(r.report.breakpoints@);
            &&& forall|k: int|
                0 <= k < p.breakpoints.len() ==> exists|j: int|
                    0 <= j < m.len() && -2_000_000 <= (#[trigger] m[j]).width - (
                    #[trigger] p.breakpoints[k]).width <= 2_000_000
            &&& m.len() == 0 <==> p.breakpoints.len() == 0
            &&& m.len() == 0 ==> row_views(r.rows@).len() == p.rows.len() + 1 && row_views(
                r.rows@,
            ).last().status == "warn"@ && row_views(r.rows@).last().label
                == "No breakpoints found"@
            &&& m.len() > 0 ==> row_views(r.rows@) == p.rows
        }),
        servers(r.report.dev_servers@) == p.servers,
        warning_views(r.report.warnings@) == p.warnings,
{
    super::merge::every_width_found_is_merged(p.breakpoints);
}

/// No width of a report was made up, and none is in it twice.
pub proof fn a_report_makes_no_width_up(
    r: ScanOutcome,
    p: Progress,
    root: Seq<char>,
    scanned: nat,
    log: Logged,
)
    requires
        is_outcome(r, p, root, scanned, log),
    ensures
        ({
            let m = founds(r.report.breakpoints@);
            &&& forall|j: int|
                0 <= j < m.len() ==> exists|k: int|
                    0 <= k < p.breakpoints.len() && (#[trigger] p.breakpoints[k]).width == (
                    #[trigger] m[j]).width
            &&& forall|i: int, j: int|
                0 <= i < j < m.len() ==> (#[trigger] m[i]).width < (#[trigger] m[j]).width
        }),
{
    super::merge::no_width_is_made_up(p.breakpoints);
}

/// The sheet says what was found: each framework by its name and version with
/// how many breakpoints it configures, how many widths the stylesheets have, and
/// the surest dev server with its address. Each warning has a row of its own.
pub proof fn the_sheet_says_what_was_found(p: Progress, out: OutputFound, files: nat)
    ensures
        ({
            let r = after_css(p, out, files).rows;
            let n = out.breakpoints.len();
            &&& n > 0 ==> r[p.rows.len() as int].label == decimal(n) + " CSS breakpoint"@
                + plural_of(n) && r.len() == p.rows.len() + 1 + out.warnings.len()
            &&& n == 0 ==> r.len() == p.rows.len() + out.warnings.len()
        }),
        ({
            let r = after_servers(p, out).rows;
            &&& out.dev_servers.len() > 0 ==> r.len() == p.rows.len() + 2 && r.last().label
                == out.dev_servers[0].url && r.last().mono && r.last().status == "ok"@
            &&& out.dev_servers.len() == 0 ==> r == p.rows
        }),
        ({
            let r = after_framework(p, out).rows;
            forall|k: int|
                0 <= k < out.warnings.len() ==> {
                    let row = #[trigger] r[r.len() - out.warnings.len() + k];
                    row.status == "warn"@ && row.label == out.warnings[k].message && row.source
                        == Some(out.warnings[k].file) && row.detail == out.warnings[k].detail
                }
        }),
{
    assert(after_servers(p, out).rows =~= p.rows + (after_servers(p, out).rows.skip(
        p.rows.len() as int,
    )));
    if out.dev_servers.len() == 0 {
        assert(after_servers(p, out).rows =~= p.rows);
    }
    let r = after_framework(p, out).rows;
    let fs = distinct_frameworks(out.frameworks);
    let first = p.rows + all_framework_rows(fs);
    assert forall|k: int| 0 <= k < out.warnings.len() implies {
        let row = #[trigger] r[r.len() - out.warnings.len() + k];
        row.status == "warn"@ && row.label == out.warnings[k].message && row.source == Some(
            out.warnings[k].file,
        ) && row.detail == out.warnings[k].detail
    } by {
        assert(r[first.len() + k] == warning_rows(out.warnings)[k]);
    }
}

/// What a framework is called in the sheet, and how its breakpoints are
/// counted.
pub proof fn a_framework_is_told_by_name_and_count(f: FrameworkFound)
    ensures
        ({
            let rows = framework_rows(f);
            let n = f.breakpoints.filter(|b: Found| b.kind == Kind::Configured).len();
            &&& f.framework == "tailwind"@ ==> rows[0].label == (match f.version {
                Some(v) => "Tailwind CSS v"@ + v,
                None => "Tailwind CSS"@,
            })
            &&& f.framework == "drupal"@ ==> rows[0].label == "Drupal breakpoints"@
            &&& rows[0].source == Some(f.source_file) && rows[0].status == "ok"@
            &&& n > 0 ==> rows.len() == 2 && rows[1].label == decimal(n)
                + " configured breakpoint"@ + plural_of(n)
            &&& n == 0 ==> rows.len() == 1
        }),
{
    lemma_configured_count(f.breakpoints);
    reveal_strlit("tailwind");
    reveal_strlit("drupal");
    assert("tailwind"@.len() == 8 && "drupal"@.len() == 6);
}

proof fn lemma_configured_count(found: Seq<Found>)
    ensures
        configured_count(found) == found.filter(|b: Found| b.kind == Kind::Configured).len(),
    decreases found.len(),
{
    reveal(Seq::filter);
    if found.len() > 0 {
        lemma_configured_count(found.drop_last());
    }
}

} // verus!
