use vstd::prelude::*;

use crate::containers::ContainerConfig;

verus! {

/// What the dialog does once a step of it is over.
#[derive(Clone, Copy, Debug, PartialEq, Eq)]
pub enum ModalAction {
    /// Close the dialog.
    Dismiss,
    /// Stay open and draw again.
    Redraw,
}

/// The state of the dialog that creates a container: the error it shows, if any.
pub struct NewContainerModal {
    error: Option<String>,
}

/// The message shown when the dialog is submitted without a name.
pub open spec fn name_required_message() -> Seq<char> {
    "Container name is required"@
}

impl NewContainerModal {
    /// The error the dialog shows.
    pub closed spec fn shown_error(self) -> Option<Seq<char>> {
        match self.error {
            Some(e) => Some(e@),
            None => None,
        }
    }

    /// A dialog that shows no error.
    pub fn new() -> (r: Self)
        ensures
            r.shown_error() == None::<Seq<char>>,
    {
        NewContainerModal { error: None }
    }

    /// The error the dialog shows.
    pub fn error(&self) -> (r: Option<&String>)
        ensures
            match r {
                Some(e) => self.shown_error() == Some(e@),
                None => self.shown_error() is None,
            },
    {
        match &self.error {
            Some(e) => Some(e),
            None => None,
        }
    }

    /// Submits the dialog with `name`. An empty name is refused: the dialog
    /// then shows that a name is required and asks to be redrawn (`Some`).
    /// Otherwise it returns `None`, and the container is to be created.
    pub fn submit(&mut self, name: &str) -> (r: Option<ModalAction>)
        ensures
            r is Some <==> name@.len() == 0,
            r is Some ==> r == Some(ModalAction::Redraw) && final(self).shown_error() == Some(
                name_required_message(),
            ),
            r is None ==> final(self).shown_error() == old(self).shown_error(),
    {
        if name.is_empty() {
            self.error = Some(String::from_str("Container name is required"));
            Some(ModalAction::Redraw)
        } else {
            None
        }
    }

    /// Takes the outcome of creating the container: on success the dialog
    /// closes; on failure it shows the error's message and is redrawn.
    pub fn creation_finished(&mut self, outcome: Result<(), String>) -> (r: ModalAction)
        ensures
            outcome is Ok ==> r == ModalAction::Dismiss && final(self).shown_error() == old(self).shown_error(),
            outcome matches Err(m) ==> r == ModalAction::Redraw && final(self).shown_error() == Some(m@),
    {
        match outcome {
            Ok(()) => ModalAction::Dismiss,
            Err(message) => {
                self.error = Some(message);
                ModalAction::Redraw
            },
        }
    }
}

/// The state of the dialog that lists the containers and deletes them.
pub struct ManageContainersModal {
    containers: Vec<ContainerConfig>,
}

impl ManageContainersModal {
    /// The containers the dialog lists.
    pub closed spec fn listed(self) -> Seq<ContainerConfig> {
        self.containers@
    }

    /// A dialog that lists `containers`.
    pub fn new(containers: Vec<ContainerConfig>) -> (r: Self)
        ensures
            r.listed() == containers@,
    {
        ManageContainersModal { containers }
    }

    /// The containers the dialog lists.
    pub fn containers(&self) -> (r: &Vec<ContainerConfig>)
        ensures
            r@ == self.listed(),
    {
        &self.containers
    }

    /// The name of the container that the delete button at `index` deletes.
    pub fn deletion_target(&self, index: usize) -> (r: Option<String>)
        ensures
            match r {
                Some(n) => index < self.listed().len() && n@ == self.listed()[index as int].name@,
                None => index >= self.listed().len(),
            },
    {
        if index < self.containers.len() {
            Some(self.containers[index].name.clone())
        } else {
            None
        }
    }

    /// Takes the outcome of deleting the container at `index`: it leaves the
    /// list only when it was deleted. Returns whether the list changed.
    pub fn deletion_finished(&mut self, index: usize, deleted: bool) -> (r: bool)
        ensures
            r == (deleted && index < old(self).listed().len()),
            final(self).listed() == if r {
                old(self).listed().remove(index as int)
            } else {
                old(self).listed()
            },
    {
        if deleted && index < self.containers.len() {
            self.containers.remove(index);
            true
        } else {
            false
        }
    }
}

} // verus!
