//! What a run tells before it downloads.

use crate::plan::{DownloadPlan, PlanView};
use vstd::prelude::*;

verus! {

/// A line that a run prints before it downloads.
#[derive(Debug, PartialEq, Eq)]
pub enum Notice {
    /// The session of the account is active.
    SessionActive,
    /// A file is stored under another name.
    Sanitized { original: String, sanitized: String },
    /// So many private files are left out.
    PrivateSkipped { count: usize },
    /// So many files are stored under another name.
    SanitizedTotal { count: usize },
}

/// A [`Notice`] as it is seen in contracts.
pub enum NoticeView {
    SessionActive,
    Sanitized(Seq<char>, Seq<char>),
    PrivateSkipped(int),
    SanitizedTotal(int),
}

impl View for Notice {
    type V = NoticeView;

    open spec fn view(&self) -> NoticeView {
        match self {
            Notice::SessionActive => NoticeView::SessionActive,
            Notice::Sanitized { original, sanitized } => NoticeView::Sanitized(
                original@,
                sanitized@,
            ),
            Notice::PrivateSkipped { count } => NoticeView::PrivateSkipped(*count as int),
            Notice::SanitizedTotal { count } => NoticeView::SanitizedTotal(*count as int),
        }
    }
}

/// Notices as they are seen in contracts.
pub open spec fn notice_views(notices: Seq<Notice>) -> Seq<NoticeView> {
    notices.map_values(|notice: Notice| notice@)
}

/// One notice for each file that is stored under another name.
pub open spec fn renaming_notices(names: Seq<(Seq<char>, Seq<char>)>) -> Seq<NoticeView> {
    names.map_values(|pair: (Seq<char>, Seq<char>)| NoticeView::Sanitized(pair.0, pair.1))
}

/// The notice, where it is due.
pub open spec fn where_due(due: bool, notice: NoticeView) -> Seq<NoticeView> {
    if due {
        seq![notice]
    } else {
        Seq::empty()
    }
}

/// What there is to tell of a plan: the session, the renamed files one by one,
/// the number of private files left out and the number of renamed files.
pub open spec fn notices_of(plan: PlanView, authenticated: bool) -> Seq<NoticeView> {
    where_due(authenticated, NoticeView::SessionActive) + renaming_notices(plan.sanitized_files)
        + where_due(plan.private_count > 0, NoticeView::PrivateSkipped(plan.private_count))
        + where_due(
        plan.sanitized_files.len() > 0,
        NoticeView::SanitizedTotal(plan.sanitized_files.len() as int),
    )
}

/// Lists what there is to tell before the downloads of a plan.
pub fn list_notices(plan: &DownloadPlan, authenticated: bool) -> (notices: Vec<Notice>)
    ensures
        notice_views(notices@) == notices_of(plan@, authenticated),
        ({
            let first: int = if authenticated {
                1
            } else {
                0
            };
            let renamed = plan.sanitized_files@.len() as int;
            let skipped: int = if plan.private_count > 0 {
                1
            } else {
                0
            };
            let total: int = if renamed > 0 {
                1
            } else {
                0
            };
            &&& notices@.len() == first + renamed + skipped + total
            &&& authenticated ==> notices@[0] is SessionActive
            &&& forall|i: int|
                0 <= i < renamed ==> (#[trigger] notices@[first + i] matches Notice::Sanitized {
                    original,
                    sanitized,
                } && original@ == plan.sanitized_files@[i].0@ && sanitized@
                    == plan.sanitized_files@[i].1@)
            &&& plan.private_count > 0 ==> (notices@[first + renamed] matches Notice::PrivateSkipped {
                count,
            } && count == plan.private_count)
            &&& renamed > 0 ==> (notices@[first + renamed
                + skipped] matches Notice::SanitizedTotal { count } && count == renamed)
        }),
{
    let mut notices: Vec<Notice> = Vec::new();
    if authenticated {
        notices.push(Notice::SessionActive);
    }
    let ghost mut told = where_due(authenticated, NoticeView::SessionActive);
    let ghost names = plan@.sanitized_files;
    proof {
        assert(notice_views(notices@) =~= told + renaming_notices(names.take(0)));
    }
    let mut i: usize = 0;
    while i < plan.sanitized_files.len()
        invariant
            i <= plan.sanitized_files@.len(),
            names == plan@.sanitized_files,
            notice_views(notices@) == told + renaming_notices(names.take(i as int)),
        decreases plan.sanitized_files@.len() - i,
    {
        let (original, sanitized) = &plan.sanitized_files[i];
        let ghost before = notice_views(notices@);
        let notice = Notice::Sanitized {
            original: original.clone(),
            sanitized: sanitized.clone(),
        };
        notices.push(notice);
        proof {
            assert(names[i as int] == (original@, sanitized@));
            assert(notice_views(notices@) =~= before.push(notice@));
            assert(renaming_notices(names.take(i + 1)) =~= renaming_notices(
                names.take(i as int),
            ).push(NoticeView::Sanitized(original@, sanitized@)));
            assert(notice_views(notices@) =~= told + renaming_notices(names.take(i + 1)));
        }
        i += 1;
    }
    proof {
        assert(names.len() == plan.sanitized_files@.len());
        assert(names.take(i as int) =~= names);
        told = told + renaming_notices(names);
    }
    if plan.private_count > 0 {
        notices.push(Notice::PrivateSkipped { count: plan.private_count });
    }
    proof {
        told = told + where_due(
            plan@.private_count > 0,
            NoticeView::PrivateSkipped(plan@.private_count),
        );
        assert(notice_views(notices@) =~= told);
    }
    if plan.sanitized_files.len() > 0 {
        notices.push(Notice::SanitizedTotal { count: plan.sanitized_files.len() });
    }
    assert(notice_views(notices@) =~= notices_of(plan@, authenticated));
    proof {
        let first: int = if authenticated {
            1
        } else {
            0
        };
        let all = notice_views(notices@);
        assert(all.len() == notices@.len());
        law_notices_come_in_order(plan@, authenticated);
        assert forall|i: int| 0 <= i < names.len() implies (
        #[trigger] notices@[first + i] matches Notice::Sanitized { original, sanitized }
            && original@ == plan.sanitized_files@[i].0@ && sanitized@
            == plan.sanitized_files@[i].1@) by {
            assert(all[first + i] == notices@[first + i]@);
            assert(names[i] == (plan.sanitized_files@[i].0@, plan.sanitized_files@[i].1@));
        }
        let skipped: int = if plan.private_count > 0 {
            1
        } else {
            0
        };
        if authenticated {
            assert(all[0] == notices@[0]@);
        }
        if plan.private_count > 0 {
            assert(all[first + names.len()] == notices@[first + names.len()]@);
        }
        if names.len() > 0 {
            assert(all[first + names.len() + skipped] == notices@[first + names.len() + skipped]@);
        }
    }
    notices
}

/// Notices come in one order, and each where it is due: the session with a login,
/// every renamed file with both of its names, the number of private files where
/// some are left out, and the number of renamed files where there are some.
pub proof fn law_notices_come_in_order(plan: PlanView, authenticated: bool)
    ensures
        ({
            let notices = notices_of(plan, authenticated);
            let first: int = if authenticated {
                1
            } else {
                0
            };
            let renamed = plan.sanitized_files.len() as int;
            let skipped: int = if plan.private_count > 0 {
                1
            } else {
                0
            };
            let total: int = if renamed > 0 {
                1
            } else {
                0
            };
            &&& notices.len() == first + renamed + skipped + total
            &&& authenticated ==> notices[0] == NoticeView::SessionActive
            &&& forall|i: int|
                0 <= i < renamed ==> #[trigger] notices[first + i] == NoticeView::Sanitized(
                    plan.sanitized_files[i].0,
                    plan.sanitized_files[i].1,
                )
            &&& plan.private_count > 0 ==> notices[first + renamed] == NoticeView::PrivateSkipped(
                plan.private_count,
            )
            &&& renamed > 0 ==> notices[first + renamed + skipped] == NoticeView::SanitizedTotal(
                renamed,
            )
        }),
{
}

/// What contracts see of a notice is what it holds.
pub proof fn law_notice_views_hold_the_fields(original: String, sanitized: String, count: usize)
    ensures
        (Notice::SessionActive)@ == NoticeView::SessionActive,
        (Notice::Sanitized { original, sanitized })@ == NoticeView::Sanitized(
            original@,
            sanitized@,
        ),
        (Notice::PrivateSkipped { count })@ == NoticeView::PrivateSkipped(count as int),
        (Notice::SanitizedTotal { count })@ == NoticeView::SanitizedTotal(count as int),
{
}

/// The ending of a counted word: none for one, `s` for any other number.
pub fn plural_suffix(count: usize) -> (suffix: &'static str)
    ensures
        suffix@ == if count == 1 {
            ""@
        } else {
            "s"@
        },
{
    if count == 1 {
        ""
    } else {
        "s"
    }
}

} // verus!
