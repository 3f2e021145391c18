//! Issues, which `bd` calls beads.

use crate::text;
use vstd::prelude::*;

verus! {

/// An issue as `bd` lists it.
#[derive(Debug)]
pub struct Bead {
    pub id: String,
    pub title: String,
    pub status: String,
    pub priority: u8,
    pub issue_type: String,
    pub assignee: Option<String>,
    pub labels: Vec<String>,
    pub dependencies: Vec<Dependency>,
}

/// Another issue that an issue depends on, as far as `bd` describes it: by its
/// id, by its title, or by both.
#[derive(Debug)]
pub struct Dependency {
    pub other_id: Option<String>,
    pub title: Option<String>,
}

impl Dependency {
    /// The id of the other issue.
    pub fn other_id(&self) -> (r: Option<&str>)
        ensures
            match r {
                Some(id) => self.other_id is Some && id@ == self.other_id->0@,
                None => self.other_id is None,
            },
    {
        match &self.other_id {
            Some(id) => Some(id.as_str()),
            None => None,
        }
    }
}

impl Bead {
    /// Whether the issue carries the label `label`.
    pub open spec fn labelled(self, label: Seq<char>) -> bool {
        exists|i: int| 0 <= i < self.labels@.len() && #[trigger] self.labels@[i]@ == label
    }

    /// Whether the issue is open and waits for a human.
    pub open spec fn waits_for_human(self) -> bool {
        self.status@ == "open"@ && self.labelled("human"@)
    }

    /// Whether the issue is a result that a human has to verify.
    pub open spec fn waits_for_verdict(self) -> bool {
        self.waits_for_human() && self.labelled("verify"@)
    }

    fn has_label(&self, label: &str) -> (r: bool)
        ensures
            r == self.labelled(label@),
    {
        let n: usize = self.labels.len();
        let mut i: usize = 0;
        while i < n
            invariant
                n == self.labels@.len(),
                i <= n,
                forall|k: int| 0 <= k < i ==> #[trigger] self.labels@[k]@ != label@,
            decreases n - i,
        {
            if text::same(self.labels[i].as_str(), label) {
                return true;
            }
            i = i + 1;
        }
        false
    }

    /// Whether the issue is in the human queue: open and labelled `human`.
    pub fn needs_human(&self) -> (r: bool)
        ensures
            r == self.waits_for_human(),
    {
        text::same(self.status.as_str(), "open") && self.has_label("human")
    }

    /// Whether the issue is an item of the human queue labelled `verify`.
    pub fn is_verify(&self) -> (r: bool)
        ensures
            r == self.waits_for_verdict(),
    {
        self.needs_human() && self.has_label("verify")
    }

    /// Who works on the issue; a dash for nobody.
    pub fn assignee(&self) -> (r: &str)
        ensures
            r@ == match self.assignee {
                Some(name) => name@,
                None => "-"@,
            },
    {
        match &self.assignee {
            Some(name) => name.as_str(),
            None => "-",
        }
    }
}

/// Law: the items to verify are part of the human queue, and a closed issue is
/// on neither list.
pub proof fn law_verify_items_are_in_the_human_queue(bead: Bead)
    ensures
        bead.waits_for_verdict() ==> bead.waits_for_human(),
        bead.status@ == "closed"@ ==> !bead.waits_for_human() && !bead.waits_for_verdict(),
{
    reveal_strlit("open");
    reveal_strlit("closed");
    assert("open"@.len() != "closed"@.len());
}

/// What the form for a new or edited issue holds.
pub struct NewBead<'a> {
    pub title: &'a str,
    pub issue_type: &'a str,
    pub priority: u8,
    pub description: &'a str,
    pub assignee: &'a str,
    pub parent: &'a str,
    pub labels: &'a str,
    /// Put the issue into the backlog.
    pub deferred: bool,
}

/// The model of a [`NewBead`].
#[verifier::ext_equal]
pub struct NewBeadModel {
    pub title: Seq<char>,
    pub issue_type: Seq<char>,
    pub priority: nat,
    pub description: Seq<char>,
    pub assignee: Seq<char>,
    pub parent: Seq<char>,
    pub labels: Seq<char>,
    pub deferred: bool,
}

impl<'a> View for NewBead<'a> {
    type V = NewBeadModel;

    open spec fn view(&self) -> NewBeadModel {
        NewBeadModel {
            title: self.title@,
            issue_type: self.issue_type@,
            priority: self.priority as nat,
            description: self.description@,
            assignee: self.assignee@,
            parent: self.parent@,
            labels: self.labels@,
            deferred: self.deferred,
        }
    }
}

/// Law: the human queue is made of the open issues labelled `human`, wherever
/// the label stands among the others and whatever else the issue holds; the
/// items to verify are those of them that are labelled `verify` too.
pub proof fn law_queues_go_by_status_and_labels(bead: Bead)
    ensures
        bead.waits_for_human() <==> bead.status@ == "open"@ && exists|i: int|
            0 <= i < bead.labels@.len() && (#[trigger] bead.labels@[i])@ == "human"@,
        bead.waits_for_verdict() <==> bead.status@ == "open"@ && (exists|i: int|
            0 <= i < bead.labels@.len() && (#[trigger] bead.labels@[i])@ == "human"@) && exists|i: int|
            0 <= i < bead.labels@.len() && (#[trigger] bead.labels@[i])@ == "verify"@,
{
}

/// Law: the model of a form says field by field what the form says.
pub proof fn law_form_model(nb: NewBead)
    ensures
        nb@.title == nb.title@,
        nb@.issue_type == nb.issue_type@,
        nb@.priority == nb.priority,
        nb@.description == nb.description@,
        nb@.assignee == nb.assignee@,
        nb@.parent == nb.parent@,
        nb@.labels == nb.labels@,
        nb@.deferred == nb.deferred,
{
}

} // verus!
