//! The keep/drop decision for each row, from the text cell, the detector and the
//! keep-empty policy.

use vstd::prelude::*;
use crate::language::{text_equals, Detector};

verus! {

/// The characters of each cell of a text column; absent cells stay absent.
pub open spec fn cell_views(cells: Seq<Option<String>>) -> Seq<Option<Seq<char>>> {
    cells.map_values(|c: Option<String>| match c {
        Some(s) => Some(s@),
        None => None,
    })
}

/// The text of a cell; an absent cell reads as empty.
pub open spec fn cell_text(cell: Option<Seq<char>>) -> Seq<char> {
    match cell {
        Some(s) => s,
        None => Seq::empty(),
    }
}

/// A cell is handed to the detector only when it is present and not empty.
pub open spec fn needs_detection(cell: Option<Seq<char>>) -> bool {
    cell is Some && cell_text(cell).len() > 0
}

/// Whether a detection outcome names the target language.
pub open spec fn names_target(outcome: Option<String>, target: Seq<char>) -> bool {
    outcome matches Some(s) && s@ == target
}

/// The rows that need the detector, in increasing order.
pub open spec fn detectable_rows(cells: Seq<Option<Seq<char>>>) -> Seq<int>
    decreases cells.len(),
{
    if cells.len() == 0 {
        Seq::empty()
    } else {
        let before = detectable_rows(cells.drop_last());
        if needs_detection(cells.last()) {
            before.push(cells.len() - 1)
        } else {
            before
        }
    }
}

/// How many rows before row `k` need the detector.
pub open spec fn jobs_before(cells: Seq<Option<Seq<char>>>, k: int) -> nat {
    detectable_rows(cells.subrange(0, k)).len()
}

/// The mask gathered from one detection outcome per detectable row, in row order.
pub open spec fn assembled(
    cells: Seq<Option<Seq<char>>>,
    outcomes: Seq<Option<String>>,
    target: Seq<char>,
    keep_empty: bool,
) -> Seq<bool> {
    Seq::new(
        cells.len(),
        |i: int|
            if needs_detection(cells[i]) {
                names_target(outcomes[jobs_before(cells, i) as int], target)
            } else {
                keep_empty
            },
    )
}

/// One text to hand to the detector, with the row it came from.
pub struct DetectionJob {
    pub row: usize,
    pub text: String,
}

/// Whether the jobs are exactly the detectable rows of the cells, in order, each with its text.
pub open spec fn jobs_match(cells: Seq<Option<Seq<char>>>, jobs: Seq<DetectionJob>) -> bool {
    let rows = detectable_rows(cells);
    &&& jobs.len() == rows.len()
    &&& forall|j: int|
        0 <= j < jobs.len() ==> {
            &&& #[trigger] jobs[j].row == rows[j]
            &&& cells[rows[j]] == Some(jobs[j].text@)
        }
}

proof fn lemma_rows_step(cells: Seq<Option<Seq<char>>>, k: int)
    requires
        0 <= k < cells.len(),
    ensures
        detectable_rows(cells.subrange(0, k + 1)) == if needs_detection(cells[k]) {
            detectable_rows(cells.subrange(0, k)).push(k)
        } else {
            detectable_rows(cells.subrange(0, k))
        },
{
    assert(cells.subrange(0, k + 1).drop_last() == cells.subrange(0, k));
}

proof fn lemma_rows_prefix(cells: Seq<Option<Seq<char>>>, m: int, n: int)
    requires
        0 <= m <= n <= cells.len(),
    ensures
        jobs_before(cells, m) <= jobs_before(cells, n),
        forall|j: int|
            0 <= j < jobs_before(cells, m) ==> #[trigger] detectable_rows(cells.subrange(0, m))[j]
                == detectable_rows(cells.subrange(0, n))[j],
    decreases n - m,
{
    if m < n {
        lemma_rows_prefix(cells, m, n - 1);
        lemma_rows_step(cells, n - 1);
    }
}

proof fn lemma_rows_full(cells: Seq<Option<Seq<char>>>)
    ensures
        jobs_before(cells, cells.len() as int) == detectable_rows(cells).len(),
        detectable_rows(cells.subrange(0, cells.len() as int)) == detectable_rows(cells),
{
    assert(cells.subrange(0, cells.len() as int) == cells);
}

proof fn lemma_row_position(cells: Seq<Option<Seq<char>>>, k: int)
    requires
        0 <= k < cells.len(),
        needs_detection(cells[k]),
    ensures
        jobs_before(cells, k) < detectable_rows(cells).len(),
        detectable_rows(cells)[jobs_before(cells, k) as int] == k,
{
    lemma_rows_step(cells, k);
    lemma_rows_prefix(cells, k + 1, cells.len() as int);
    lemma_rows_full(cells);
    assert(detectable_rows(cells.subrange(0, k + 1))[jobs_before(cells, k) as int] == k);
}

/// The texts that need the detector: one job per present, non-empty cell, in row order.
pub fn detection_jobs(cells: &Vec<Option<String>>) -> (r: Vec<DetectionJob>)
    ensures
        jobs_match(cell_views(cells@), r@),
{
    let mut jobs: Vec<DetectionJob> = Vec::new();
    let mut i: usize = 0;
    while i < cells.len()
        invariant
            i <= cells.len(),
            jobs_match(cell_views(cells@).subrange(0, i as int), jobs@),
            forall|j: int| 0 <= j < jobs.len() ==> jobs@[j].row < i,
        decreases cells.len() - i,
    {
        proof {
            lemma_rows_step(cell_views(cells@), i as int);
        }
        let ghost old_jobs = jobs@;
        match &cells[i] {
            Some(s) => {
                if !s.as_str().is_empty() {
                    jobs.push(DetectionJob { row: i, text: s.clone() });
                }
            },
            None => {},
        }
        let ghost sub = cell_views(cells@).subrange(0, i + 1);
        assert forall|j: int| 0 <= j < jobs.len() implies {
            &&& #[trigger] jobs@[j].row == detectable_rows(sub)[j]
            &&& sub[detectable_rows(sub)[j]] == Some(jobs@[j].text@)
        } by {
            if j < old_jobs.len() {
                assert(jobs@[j] == old_jobs[j]);
            }
        }
        i = i + 1;
    }
    proof {
        lemma_rows_full(cell_views(cells@));
    }
    jobs
}

/// Gathers the detection outcomes, one per job of `detection_jobs` and in the same order,
/// into a mask in row order.
pub fn assemble_mask(
    cells: &Vec<Option<String>>,
    outcomes: &Vec<Option<String>>,
    target: &str,
    keep_empty: bool,
) -> (r: Vec<bool>)
    requires
        outcomes.len() == detectable_rows(cell_views(cells@)).len(),
    ensures
        r@ == assembled(cell_views(cells@), outcomes@, target@, keep_empty),
{
    let mut mask: Vec<bool> = Vec::new();
    let mut i: usize = 0;
    let mut j: usize = 0;
    while i < cells.len()
        invariant
            i <= cells.len(),
            outcomes.len() == detectable_rows(cell_views(cells@)).len(),
            j == jobs_before(cell_views(cells@), i as int),
            mask@ == assembled(cell_views(cells@), outcomes@, target@, keep_empty).subrange(0, i as int),
        decreases cells.len() - i,
    {
        proof {
            lemma_rows_step(cell_views(cells@), i as int);
            lemma_rows_prefix(cell_views(cells@), i + 1, cells.len() as int);
            lemma_rows_full(cell_views(cells@));
        }
        let keep = match &cells[i] {
            Some(s) => {
                if !s.as_str().is_empty() {
                    let hit = match &outcomes[j] {
                        Some(name) => text_equals(name.as_str(), target),
                        None => false,
                    };
                    j = j + 1;
                    hit
                } else {
                    keep_empty
                }
            },
            None => keep_empty,
        };
        mask.push(keep);
        i = i + 1;
        assert(mask@ =~= assembled(cell_views(cells@), outcomes@, target@, keep_empty).subrange(0, i as int));
    }
    assert(mask@ =~= assembled(cell_views(cells@), outcomes@, target@, keep_empty));
    mask
}

/// Row `k` takes the outcome of the job made for it: the job at `jobs_before(cells, k)` is for
/// row `k` and carries its text, and the row is kept when that outcome names the target.
pub open spec fn row_takes_job(
    cells: Seq<Option<Seq<char>>>,
    jobs: Seq<DetectionJob>,
    outcomes: Seq<Option<String>>,
    target: Seq<char>,
    keep_empty: bool,
    k: int,
) -> bool {
    let j = jobs_before(cells, k) as int;
    &&& 0 <= j < jobs.len()
    &&& jobs[j].row == k
    &&& cells[k] == Some(jobs[j].text@)
    &&& assembled(cells, outcomes, target, keep_empty)[k] == names_target(outcomes[j], target)
}

/// Gathering keeps rows apart: a detectable row `k` takes the outcome of the job made for
/// row `k`, whatever order the jobs ran in; every other row follows the keep-empty policy.
pub proof fn lemma_gathered_mask(
    cells: Seq<Option<Seq<char>>>,
    jobs: Seq<DetectionJob>,
    outcomes: Seq<Option<String>>,
    target: Seq<char>,
    keep_empty: bool,
)
    requires
        jobs_match(cells, jobs),
        outcomes.len() == jobs.len(),
    ensures
        forall|k: int|
            0 <= k < cells.len() && needs_detection(cells[k]) ==> row_takes_job(
                cells,
                jobs,
                outcomes,
                target,
                keep_empty,
                k,
            ),
        forall|k: int|
            0 <= k < cells.len() && !needs_detection(cells[k]) ==> #[trigger] assembled(
                cells,
                outcomes,
                target,
                keep_empty,
            )[k] == keep_empty,
{
    assert forall|k: int| 0 <= k < cells.len() && needs_detection(cells[k]) implies row_takes_job(
        cells,
        jobs,
        outcomes,
        target,
        keep_empty,
        k,
    ) by {
        lemma_row_position(cells, k);
        let j = jobs_before(cells, k) as int;
        assert(jobs[j].row == detectable_rows(cells)[j]);
    }
}

/// The detector sees exactly the present, non-empty cells: as many jobs as such cells.
pub proof fn lemma_detection_count(cells: Seq<Option<Seq<char>>>)
    ensures
        detectable_rows(cells).len() == cells.filter(|c: Option<Seq<char>>| needs_detection(c)).len(),
    decreases cells.len(),
{
    reveal(Seq::filter);
    if cells.len() > 0 {
        lemma_detection_count(cells.drop_last());
    }
}

/// The mask of a column: absent and empty cells follow the keep-empty policy, every other
/// cell is handed to the detector once, in row order, and kept exactly when the detector
/// names the target language for it.
pub fn compute_mask(
    detector: &Detector,
    cells: &Vec<Option<String>>,
    target: &str,
    keep_empty: bool,
) -> (r: Vec<bool>)
    ensures
        exists|outcomes: Seq<Option<String>>|
            outcomes.len() == detectable_rows(cell_views(cells@)).len() && r@ == assembled(
                cell_views(cells@),
                outcomes,
                target@,
                keep_empty,
            ),
{
    let jobs = detection_jobs(cells);
    let mut outcomes: Vec<Option<String>> = Vec::new();
    let mut j: usize = 0;
    while j < jobs.len()
        invariant
            j <= jobs.len(),
            outcomes.len() == j,
        decreases jobs.len() - j,
    {
        let outcome = detector.detect(jobs[j].text.as_str());
        outcomes.push(outcome);
        j = j + 1;
    }
    let mask = assemble_mask(cells, &outcomes, target, keep_empty);
    assert(outcomes@.len() == detectable_rows(cell_views(cells@)).len() && mask@ == assembled(
        cell_views(cells@),
        outcomes@,
        target@,
        keep_empty,
    ));
    mask
}

} // verus!
