//! Delivery of one assembled chapter: the document's name, the tally of
//! recipients reached, the notification text, and whether the chapter is
//! then marked as delivered.

use vstd::prelude::*;
use crate::text::{decimal, decimal_string, replace, replace_all};

verus! {

/// Title of the notification sent for an updated comic.
pub const NOTIFY_UPDATE_TITLE: &'static str = "Comic Update";

pub const HOLDER_COMIC_NAME: &'static str = "%comic%";

pub const HOLDER_CHAPTER_NAME: &'static str = "%chapter%";

pub const HOLDER_SUCCESS_COUNT: &'static str = "%success%";

pub const HOLDER_TOTAL_COUNT: &'static str = "%total%";

/// The notification text used where the configuration gives none.
pub const DEFAULT_NOTIFY_CONTENT_TEMPLATE: &'static str =
    "Comic %comic% has been updated to chapter %chapter% (%success%/%total%).";

/// The template with its four placeholders filled in, one after the other.
pub open spec fn render(
    template: Seq<char>,
    comic: Seq<char>,
    chapter: Seq<char>,
    success: nat,
    total: nat,
) -> Seq<char> {
    replace_all(
        replace_all(
            replace_all(replace_all(template, HOLDER_COMIC_NAME@, comic), HOLDER_CHAPTER_NAME@, chapter),
            HOLDER_SUCCESS_COUNT@,
            decimal(success),
        ),
        HOLDER_TOTAL_COUNT@,
        decimal(total),
    )
}

/// The template in force: the configured one, else the default.
pub open spec fn template_in_force(template: Option<String>) -> Seq<char> {
    match template {
        Some(t) => t@,
        None => DEFAULT_NOTIFY_CONTENT_TEMPLATE@,
    }
}

/// The number of sends that succeeded.
pub open spec fn successes(results: Seq<bool>) -> nat
    decreases results.len(),
{
    if results.len() == 0 {
        0
    } else {
        successes(results.drop_last()) + if results.last() {
            1nat
        } else {
            0nat
        }
    }
}

/// The file name of the document of a chapter.
pub open spec fn document_file_name(comic: Seq<char>, chapter: Seq<char>) -> Seq<char> {
    comic + seq![' '] + chapter + ".pdf"@
}

/// The notification text for a chapter delivered to `success` of `total`
/// recipients.
pub fn notification_content(
    template: &Option<String>,
    comic_name: &str,
    chapter_name: &str,
    success: usize,
    total: usize,
) -> (r: String)
    ensures
        r@ == render(template_in_force(*template), comic_name@, chapter_name@, success as nat, total as nat),
{
    proof {
        reveal_strlit("%comic%");
        reveal_strlit("%chapter%");
        reveal_strlit("%success%");
        reveal_strlit("%total%");
    }
    let t: &str = match template {
        Some(t) => t.as_str(),
        None => DEFAULT_NOTIFY_CONTENT_TEMPLATE,
    };
    let a = replace(t, HOLDER_COMIC_NAME, comic_name);
    let b = replace(a.as_str(), HOLDER_CHAPTER_NAME, chapter_name);
    let s = decimal_string(success);
    let c = replace(b.as_str(), HOLDER_SUCCESS_COUNT, s.as_str());
    let n = decimal_string(total);
    replace(c.as_str(), HOLDER_TOTAL_COUNT, n.as_str())
}

/// The file name of the document of a chapter: comic name, a space, chapter
/// name and `.pdf`.
pub fn document_name(comic_name: &str, chapter_name: &str) -> (r: String)
    ensures
        r@ == document_file_name(comic_name@, chapter_name@),
{
    proof {
        reveal_strlit(" ");
        assert(seq![' '] =~= " "@);
    }
    let mut r = crate::text::join3(comic_name, " ", chapter_name);
    r.append(".pdf");
    r
}

/// How many of the sends succeeded.
pub fn count_successes(results: &Vec<bool>) -> (r: usize)
    ensures
        r == successes(results@),
        r <= results@.len(),
{
    let mut n: usize = 0;
    let mut i: usize = 0;
    while i < results.len()
        invariant
            i <= results@.len(),
            n == successes(results@.take(i as int)),
            n <= i,
        decreases results@.len() - i,
    {
        assert(results@.take(i + 1).drop_last() =~= results@.take(i as int));
        if results[i] {
            n = n + 1;
        }
        i = i + 1;
    }
    assert(results@.take(i as int) =~= results@);
    n
}

/// What a finished delivery reports.
pub struct Delivery {
    /// Recipients that received the document.
    pub success: usize,
    /// Recipients configured.
    pub total: usize,
    /// The notification text.
    pub content: String,
}

/// The report of a delivery whose document was assembled and sent to each
/// recipient, `results[i]` telling whether recipient `i` received it. Whatever
/// the sends gave, the chapter is marked next (see `delivery_trace`).
pub fn delivery_report(
    template: &Option<String>,
    comic_name: &str,
    chapter_name: &str,
    results: &Vec<bool>,
) -> (r: Delivery)
    ensures
        r.success == successes(results@),
        r.total == results@.len(),
        r.content@ == render(
            template_in_force(*template),
            comic_name@,
            chapter_name@,
            successes(results@),
            results@.len(),
        ),
{
    let success = count_successes(results);
    let total = results.len();
    let content = notification_content(template, comic_name, chapter_name, success, total);
    Delivery { success, total, content }
}

/// One step of delivering a chapter.
#[derive(PartialEq, Eq, Structural, Clone, Copy, Debug)]
pub enum Action {
    /// Assemble the chapter's document.
    Assemble,
    /// Send the document to recipient `i`.
    Send(usize),
    /// Send the notification of the delivery.
    Notify,
    /// Mark the chapter as delivered.
    Mark,
    /// Nothing is left to do for this chapter.
    Finish,
}

/// The step that follows `last` (`None` before the first) for a chapter with
/// `total` recipients, `assembled` telling whether its document was made.
pub open spec fn step(learn: bool, total: nat, assembled: bool, last: Option<Action>) -> Action {
    match last {
        None => if learn {
            Action::Mark
        } else {
            Action::Assemble
        },
        Some(Action::Assemble) => if !assembled {
            Action::Finish
        } else if total > 0 {
            Action::Send(0)
        } else {
            Action::Notify
        },
        Some(Action::Send(i)) => if i + 1 < total {
            Action::Send((i + 1) as usize)
        } else {
            Action::Notify
        },
        Some(Action::Notify) => Action::Mark,
        Some(Action::Mark) => Action::Finish,
        Some(Action::Finish) => Action::Finish,
    }
}

/// The `k`-th step (from zero) of delivering a chapter.
pub open spec fn run(learn: bool, total: nat, assembled: bool, k: nat) -> Action
    decreases k,
{
    if k == 0 {
        step(learn, total, assembled, None)
    } else {
        step(learn, total, assembled, Some(run(learn, total, assembled, (k - 1) as nat)))
    }
}

/// The whole delivery of a chapter. In learning mode it is only marked. A
/// chapter whose document could not be made is left unmarked. Otherwise the
/// document goes to each recipient once, in order, then comes the
/// notification and then the mark.
pub open spec fn delivery_trace(learn: bool, total: nat, assembled: bool) -> Seq<Action> {
    if learn {
        seq![Action::Mark, Action::Finish]
    } else if !assembled {
        seq![Action::Assemble, Action::Finish]
    } else {
        seq![Action::Assemble] + Seq::new(total, |i: int| Action::Send(i as usize)) + seq![
            Action::Notify,
            Action::Mark,
            Action::Finish,
        ]
    }
}

/// The step that follows `last` in delivering a chapter to `total`
/// recipients.
pub fn next_action(learn: bool, total: usize, assembled: bool, last: Option<Action>) -> (r: Action)
    ensures
        r == step(learn, total as nat, assembled, last),
{
    match last {
        None => if learn {
            Action::Mark
        } else {
            Action::Assemble
        },
        Some(Action::Assemble) => if !assembled {
            Action::Finish
        } else if total > 0 {
            Action::Send(0)
        } else {
            Action::Notify
        },
        Some(Action::Send(i)) => if i < total && total - i > 1 {
            Action::Send(i + 1)
        } else {
            Action::Notify
        },
        Some(Action::Notify) => Action::Mark,
        Some(Action::Mark) => Action::Finish,
        Some(Action::Finish) => Action::Finish,
    }
}

/// Following `next_action` from the start performs exactly the steps of
/// `delivery_trace`, ending with `Finish`, and stays finished: each chapter's
/// steps depend on its own mode, recipient count and assembly alone.
pub proof fn lemma_delivery_follows_trace(learn: bool, total: nat, assembled: bool)
    requires
        total <= usize::MAX,
    ensures
        forall|k: nat| #![trigger run(learn, total, assembled, k)]
            k < delivery_trace(learn, total, assembled).len() ==> run(learn, total, assembled, k)
                == delivery_trace(learn, total, assembled)[k as int],
        forall|k: nat| #![trigger run(learn, total, assembled, k)]
            k >= delivery_trace(learn, total, assembled).len() - 1 ==> run(learn, total, assembled, k)
                == Action::Finish,
{
    assert forall|k: nat| #![trigger run(learn, total, assembled, k)]
        k < delivery_trace(learn, total, assembled).len() implies run(learn, total, assembled, k)
        == delivery_trace(learn, total, assembled)[k as int] by {
        lemma_run_at(learn, total, assembled, k);
    }
    assert forall|k: nat| #![trigger run(learn, total, assembled, k)]
        k >= delivery_trace(learn, total, assembled).len() - 1 implies run(learn, total, assembled, k)
        == Action::Finish by {
        lemma_run_finished(learn, total, assembled, k);
    }
}

proof fn lemma_run_at(learn: bool, total: nat, assembled: bool, k: nat)
    requires
        total <= usize::MAX,
        k < delivery_trace(learn, total, assembled).len(),
    ensures
        run(learn, total, assembled, k) == delivery_trace(learn, total, assembled)[k as int],
    decreases k,
{
    let t = delivery_trace(learn, total, assembled);
    if k > 0 {
        lemma_run_at(learn, total, assembled, (k - 1) as nat);
        if !learn && assembled {
            let sends = Seq::new(total, |i: int| Action::Send(i as usize));
            let tail = seq![Action::Notify, Action::Mark, Action::Finish];
            assert(t == seq![Action::Assemble] + sends + tail);
            if k <= total {
                assert(t[k as int] == sends[k - 1]);
                if k > 1 {
                    assert(t[k - 1] == sends[k - 2]);
                }
            } else {
                assert(t[k as int] == tail[k - 1 - total]);
                if k - 1 >= 1 && k - 1 <= total {
                    assert(t[k - 1] == sends[k - 2]);
                } else if k - 1 > total {
                    assert(t[k - 1] == tail[k - 2 - total]);
                }
            }
        }
    }
}

proof fn lemma_run_finished(learn: bool, total: nat, assembled: bool, k: nat)
    requires
        total <= usize::MAX,
        k >= delivery_trace(learn, total, assembled).len() - 1,
    ensures
        run(learn, total, assembled, k) == Action::Finish,
    decreases k,
{
    let n = delivery_trace(learn, total, assembled).len();
    if k == n - 1 {
        lemma_run_at(learn, total, assembled, k);
    } else {
        lemma_run_finished(learn, total, assembled, (k - 1) as nat);
    }
}

} // verus!
