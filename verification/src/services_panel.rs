use vstd::laws_eq::obeys_concrete_eq;
use vstd::prelude::*;

use crate::text::{trim, trimmed};

verus! {

/// The edge of the window at which the panel is docked.
#[derive(Clone, Copy, Debug, PartialEq, Eq)]
pub enum DockPosition {
    Left,
    Bottom,
    Right,
}

/// One service of the panel: a terminal that runs a long-lived command,
/// shown under a name the user chose, possibly with an icon of their choice.
/// `T` is the terminal, `V` the view that shows it once the row is expanded,
/// `E` the editor in which the service is being renamed, `I` an icon.
pub struct Service<T, V, E, I> {
    pub name: String,
    pub custom_icon: Option<I>,
    pub terminal: T,
    pub terminal_view: Option<V>,
    pub is_expanded: bool,
    pub rename_editor: Option<Rename<E>>,
}

/// A rename in progress: the editor it happens in, and the key that tells
/// that editor apart from the editors of other renames.
pub struct Rename<E> {
    pub key: u64,
    pub editor: E,
}

/// The icon in front of a service's name: its own icon, or the server icon
/// when it has none.
#[derive(Clone, Copy, Debug, PartialEq, Eq)]
pub enum RowIcon<I> {
    Custom(I),
    Server,
}

/// The disclosure icon of a row: pointing down when the row is expanded,
/// right when it is collapsed.
#[derive(Clone, Copy, Debug, PartialEq, Eq)]
pub enum Disclosure {
    ChevronDown,
    ChevronRight,
}

/// What a row of the panel shows.
#[derive(Clone, Debug, PartialEq, Eq)]
pub struct ServiceRow<I> {
    pub name: String,
    pub icon: RowIcon<I>,
    pub custom_icon: Option<I>,
    pub disclosure: Disclosure,
    pub is_expanded: bool,
    pub renaming: bool,
    pub shows_terminal: bool,
}

/// The panel that lists the services of a workspace.
pub struct ServicesPanel<T, V, E, I> {
    services: Vec<Service<T, V, E, I>>,
    position: DockPosition,
}

/// The service with its expansion flipped.
pub open spec fn toggled<T, V, E, I>(s: Service<T, V, E, I>) -> Service<T, V, E, I> {
    Service { is_expanded: !s.is_expanded, ..s }
}

/// The services after `toggle_expand(index)`.
pub open spec fn after_toggle<T, V, E, I>(s: Seq<Service<T, V, E, I>>, index: int) -> Seq<
    Service<T, V, E, I>,
> {
    if 0 <= index < s.len() {
        s.update(index, toggled(s[index]))
    } else {
        s
    }
}

/// The services after `remove_service(index)`.
pub open spec fn after_remove<T, V, E, I>(s: Seq<Service<T, V, E, I>>, index: int) -> Seq<
    Service<T, V, E, I>,
> {
    if 0 <= index < s.len() {
        s.remove(index)
    } else {
        s
    }
}

/// A newly added service: collapsed, with no view yet and not being renamed.
pub open spec fn new_service<T, V, E, I>(name: String, custom_icon: Option<I>, terminal: T) -> Service<
    T,
    V,
    E,
    I,
> {
    Service {
        name,
        custom_icon,
        terminal,
        terminal_view: None,
        is_expanded: false,
        rename_editor: None,
    }
}

/// The services after `start_renaming(index, key, editor)`.
pub open spec fn after_start_renaming<T, V, E, I>(
    s: Seq<Service<T, V, E, I>>,
    index: int,
    key: u64,
    editor: E,
) -> Seq<Service<T, V, E, I>> {
    if 0 <= index < s.len() {
        s.update(index, Service { rename_editor: Some(Rename { key, editor }), ..s[index] })
    } else {
        s
    }
}

/// The name that a rename leaves: the trimmed text of the editor when the
/// rename is saved and that text is not blank, else the old name.
pub open spec fn renamed_to(old_name: Seq<char>, save: bool, text: Seq<char>) -> Seq<char> {
    if save && trimmed(text).len() > 0 {
        trimmed(text)
    } else {
        old_name
    }
}

/// Whether the service at `index` is being renamed.
pub open spec fn is_renaming<T, V, E, I>(s: Seq<Service<T, V, E, I>>, index: int) -> bool {
    0 <= index < s.len() && s[index].rename_editor is Some
}

/// The services after `finish_renaming(index, save, text)`, up to the name,
/// whose view `renamed_to` gives.
pub open spec fn finished_renaming_except_name<T, V, E, I>(
    old: Seq<Service<T, V, E, I>>,
    new: Seq<Service<T, V, E, I>>,
    index: int,
) -> bool {
    if is_renaming(old, index) {
        &&& new.len() == old.len()
        &&& forall|j: int| 0 <= j < old.len() && j != index ==> new[j] == old[j]
        &&& new[index].rename_editor is None
        &&& new[index].custom_icon == old[index].custom_icon
        &&& new[index].terminal == old[index].terminal
        &&& new[index].terminal_view == old[index].terminal_view
        &&& new[index].is_expanded == old[index].is_expanded
    } else {
        new == old
    }
}

/// The services after `set_service_icon(index, icon)`.
pub open spec fn after_set_icon<T, V, E, I>(s: Seq<Service<T, V, E, I>>, index: int, icon: Option<I>) -> Seq<
    Service<T, V, E, I>,
> {
    if 0 <= index < s.len() {
        s.update(index, Service { custom_icon: icon, ..s[index] })
    } else {
        s
    }
}

/// Whether a service is expanded but has no view of its terminal yet.
pub open spec fn needs_view<T, V, E, I>(s: Service<T, V, E, I>) -> bool {
    s.is_expanded && s.terminal_view is None
}

/// The services after `attach_terminal_view(index, view)`.
pub open spec fn after_attach_view<T, V, E, I>(s: Seq<Service<T, V, E, I>>, index: int, view: V) -> Seq<
    Service<T, V, E, I>,
> {
    if 0 <= index < s.len() && needs_view(s[index]) {
        s.update(index, Service { terminal_view: Some(view), ..s[index] })
    } else {
        s
    }
}

/// The services after attaching each view of `views` to the service at its
/// index, in order, as `attach_terminal_view` does.
pub open spec fn after_attach_views<T, V, E, I>(s: Seq<Service<T, V, E, I>>, views: Seq<(usize, V)>) -> Seq<
    Service<T, V, E, I>,
>
    decreases views.len(),
{
    if views.len() == 0 {
        s
    } else {
        after_attach_view(after_attach_views(s, views.drop_last()), views.last().0 as int, views.last().1)
    }
}

/// Whether `a` is `b` but for, perhaps, the view of its terminal.
pub open spec fn differs_at_most_in_view<T, V, E, I>(a: Service<T, V, E, I>, b: Service<T, V, E, I>) -> bool {
    a == Service { terminal_view: a.terminal_view, ..b }
}

/// Whether one of `views` is meant for the service at `index`.
pub open spec fn has_view_for<V>(views: Seq<(usize, V)>, index: int) -> bool {
    exists|k: int| 0 <= k < views.len() && #[trigger] views[k].0 == index
}

/// The row that the panel shows for a service.
pub open spec fn row_of<T, V, E, I>(s: Service<T, V, E, I>) -> (
    Seq<char>,
    RowIcon<I>,
    Option<I>,
    Disclosure,
    bool,
    bool,
    bool,
) {
    (
        s.name@,
        match s.custom_icon {
            Some(i) => RowIcon::Custom(i),
            None => RowIcon::Server,
        },
        s.custom_icon,
        if s.is_expanded {
            Disclosure::ChevronDown
        } else {
            Disclosure::ChevronRight
        },
        s.is_expanded,
        s.rename_editor is Some,
        s.is_expanded && s.terminal_view is Some,
    )
}

/// The fields of a row, as `row_of` lists them.
pub open spec fn row_fields<I>(r: ServiceRow<I>) -> (
    Seq<char>,
    RowIcon<I>,
    Option<I>,
    Disclosure,
    bool,
    bool,
    bool,
) {
    (r.name@, r.icon, r.custom_icon, r.disclosure, r.is_expanded, r.renaming, r.shows_terminal)
}

impl<T, V, E, I> ServicesPanel<T, V, E, I> {
    /// The services, in the order in which they are listed.
    pub closed spec fn services(self) -> Seq<Service<T, V, E, I>> {
        self.services@
    }

    /// Where the panel is docked.
    pub closed spec fn dock(self) -> DockPosition {
        self.position
    }

    /// An empty panel, docked on the right.
    pub fn new() -> (r: Self)
        ensures
            r.services() == Seq::<Service<T, V, E, I>>::empty(),
            r.dock() == DockPosition::Right,
    {
        ServicesPanel { services: Vec::new(), position: DockPosition::Right }
    }

    /// The number of services.
    pub fn len(&self) -> (r: usize)
        ensures
            r == self.services().len(),
    {
        self.services.len()
    }

    /// Whether there are no services; the panel then shows a hint instead.
    pub fn is_empty(&self) -> (r: bool)
        ensures
            r == (self.services().len() == 0),
    {
        self.services.len() == 0
    }

    /// Adds a service at the end of the list.
    pub fn add_service(&mut self, name: String, custom_icon: Option<I>, terminal: T)
        ensures
            final(self).services() == old(self).services().push(
                new_service(name, custom_icon, terminal),
            ),
            final(self).services().len() == old(self).services().len() + 1,
            final(self).services().last().name == name,
            final(self).services().last().custom_icon == custom_icon,
            final(self).services().last().terminal == terminal,
            final(self).services().last().terminal_view is None,
            !final(self).services().last().is_expanded,
            final(self).services().last().rename_editor is None,
            forall|j: int|
                0 <= j < old(self).services().len() ==> #[trigger] final(self).services()[j] == old(
                    self,
                ).services()[j],
            final(self).dock() == old(self).dock(),
    {
        self.services.push(
            Service {
                name,
                custom_icon,
                terminal,
                terminal_view: None,
                is_expanded: false,
                rename_editor: None,
            },
        );
    }

    /// Expands a collapsed service or collapses an expanded one; a collapsed
    /// service keeps its view. Returns whether there was a service at `index`.
    pub fn toggle_expand(&mut self, index: usize) -> (r: bool)
        ensures
            r == (index < old(self).services().len()),
            final(self).services() == after_toggle(old(self).services(), index as int),
            final(self).dock() == old(self).dock(),
    {
        if index < self.services.len() {
            self.services[index].is_expanded = !self.services[index].is_expanded;
            true
        } else {
            false
        }
    }

    /// Removes the service at `index`. Returns whether there was one.
    pub fn remove_service(&mut self, index: usize) -> (r: bool)
        ensures
            r == (index < old(self).services().len()),
            final(self).services() == after_remove(old(self).services(), index as int),
            r ==> final(self).services().len() == old(self).services().len() - 1,
            r ==> forall|j: int|
                0 <= j < index ==> #[trigger] final(self).services()[j] == old(self).services()[j],
            r ==> forall|j: int|
                index <= j < final(self).services().len() ==> #[trigger] final(self).services()[j] == old(
                    self,
                ).services()[j + 1],
            !r ==> final(self).services() == old(self).services(),
            final(self).dock() == old(self).dock(),
    {
        if index < self.services.len() {
            self.services.remove(index);
            true
        } else {
            false
        }
    }

    /// The name of the service at `index`, which a new rename editor starts with.
    pub fn service_name(&self, index: usize) -> (r: Option<&String>)
        ensures
            match r {
                Some(n) => index < self.services().len() && *n == self.services()[index as int].name,
                None => index >= self.services().len(),
            },
    {
        if index < self.services.len() {
            Some(&self.services[index].name)
        } else {
            None
        }
    }

    /// Starts renaming the service at `index` in `editor`, told apart from
    /// other rename editors by `key`; an editor of an earlier rename of it is
    /// let go. Returns whether there was a service.
    pub fn start_renaming(&mut self, index: usize, key: u64, editor: E) -> (r: bool)
        ensures
            r == (index < old(self).services().len()),
            final(self).services() == after_start_renaming(old(self).services(), index as int, key, editor),
            final(self).dock() == old(self).dock(),
    {
        if index < self.services.len() {
            self.services[index].rename_editor = Some(Rename { key, editor });
            true
        } else {
            false
        }
    }

    /// The editor in which the service at `index` is being renamed.
    pub fn rename_editor(&self, index: usize) -> (r: Option<&E>)
        ensures
            match r {
                Some(e) => is_renaming(self.services(), index as int) && self.services()[index as int].rename_editor->0.editor
                    == *e,
                None => !is_renaming(self.services(), index as int),
            },
    {
        if index < self.services.len() {
            match &self.services[index].rename_editor {
                Some(rename) => Some(&rename.editor),
                None => None,
            }
        } else {
            None
        }
    }

    /// Whether the editor with `key` is still the one in which the service at
    /// `index` is being renamed; a rename editor that lost focus ends the
    /// rename only then.
    pub fn is_current_rename(&self, index: usize, key: u64) -> (r: bool)
        ensures
            r == is_current_editor(self.services(), index as int, key),
    {
        if index < self.services.len() {
            match &self.services[index].rename_editor {
                Some(rename) => rename.key == key,
                None => false,
            }
        } else {
            false
        }
    }

    /// Ends the rename of the service at `index` and hands back its editor.
    /// When `save` is set, the service takes `editor_text` with white space
    /// trimmed from both ends as its name, unless that leaves nothing. Returns
    /// `None`, changing nothing, when the service is not being renamed.
    pub fn finish_renaming(&mut self, index: usize, save: bool, editor_text: &str) -> (r: Option<E>)
        ensures
            r is Some == is_renaming(old(self).services(), index as int),
            r matches Some(e) ==> old(self).services()[index as int].rename_editor->0.editor == e,
            finished_renaming_except_name(old(self).services(), final(self).services(), index as int),
            is_renaming(old(self).services(), index as int) ==> final(self).services()[index as int].name@
                == renamed_to(old(self).services()[index as int].name@, save, editor_text@),
            final(self).dock() == old(self).dock(),
    {
        if index >= self.services.len() {
            return None;
        }
        let editor = self.services[index].rename_editor.take();
        match editor {
            None => {
                assert(self.services@ =~= old(self).services@);
                None
            },
            Some(rename) => {
                if save {
                    let new_name = trim(editor_text);
                    if new_name.as_str().is_empty() {
                    } else {
                        self.services[index].name = new_name;
                    }
                }
                Some(rename.editor)
            },
        }
    }

    /// Gives the service at `index` the icon `icon` (or none). Returns whether
    /// that changed anything, which is when the panel has to be redrawn.
    pub fn set_service_icon(&mut self, index: usize, icon: Option<I>) -> (r: bool)
        where
            I: PartialEq,
        requires
            obeys_concrete_eq::<I>(),
        ensures
            r == (index < old(self).services().len() && old(self).services()[index as int].custom_icon
                != icon),
            final(self).services() == if r {
                after_set_icon(old(self).services(), index as int, icon)
            } else {
                old(self).services()
            },
            final(self).dock() == old(self).dock(),
    {
        proof {
            reveal(obeys_concrete_eq);
        }
        if index >= self.services.len() {
            return false;
        }
        let same = match (&self.services[index].custom_icon, &icon) {
            (Some(a), Some(b)) => *a == *b,
            (None, None) => true,
            _ => false,
        };
        if same {
            false
        } else {
            self.services[index].custom_icon = icon;
            true
        }
    }

    /// Where the panel is docked.
    pub fn position(&self) -> (r: DockPosition)
        ensures
            r == self.dock(),
    {
        self.position
    }

    /// Docks the panel at `position`.
    pub fn set_position(&mut self, position: DockPosition)
        ensures
            final(self).dock() == position,
            final(self).services() == old(self).services(),
    {
        self.position = position;
    }

    /// The services that are expanded but have no view of their terminal
    /// yet, in increasing order; drawing the panel makes a view for each.
    pub fn views_to_create(&self) -> (r: Vec<usize>)
        ensures
            forall|k: int, l: int| 0 <= k < l < r@.len() ==> r@[k] < r@[l],
            forall|k: int|
                0 <= k < r@.len() ==> #[trigger] r@[k] < self.services().len() && needs_view(
                    self.services()[r@[k] as int],
                ),
            forall|i: int|
                0 <= i < self.services().len() && needs_view(#[trigger] self.services()[i])
                    ==> r@.contains(i as usize),
    {
        let mut r: Vec<usize> = Vec::new();
        let mut i: usize = 0;
        while i < self.services.len()
            invariant
                i <= self.services@.len(),
                forall|k: int, l: int| 0 <= k < l < r@.len() ==> r@[k] < r@[l],
                forall|k: int|
                    0 <= k < r@.len() ==> #[trigger] r@[k] < i && needs_view(self.services@[r@[k] as int]),
                forall|j: int|
                    0 <= j < i && needs_view(#[trigger] self.services@[j]) ==> r@.contains(j as usize),
            decreases self.services@.len() - i,
        {
            if self.services[i].is_expanded && self.services[i].terminal_view.is_none() {
                let ghost old_r = r@;
                r.push(i);
                proof {
                    assert forall|j: int|
                        0 <= j < i + 1 && needs_view(#[trigger] self.services@[j]) implies r@.contains(
                        j as usize,
                    ) by {
                        if j < i {
                            assert(old_r.contains(j as usize));
                            let w = choose|w: int| 0 <= w < old_r.len() && old_r[w] == j as usize;
                            assert(r@[w] == j as usize);
                        } else {
                            assert(r@[old_r.len() as int] == i);
                        }
                    }
                }
            }
            i = i + 1;
        }
        r
    }

    /// Gives the service at `index` the view `view` of its terminal, if it is
    /// expanded and has none yet. Returns whether it did.
    pub fn attach_terminal_view(&mut self, index: usize, view: V) -> (r: bool)
        ensures
            r == (index < old(self).services().len() && needs_view(old(self).services()[index as int])),
            final(self).services() == after_attach_view(old(self).services(), index as int, view),
            final(self).dock() == old(self).dock(),
    {
        if index < self.services.len() && self.services[index].is_expanded
            && self.services[index].terminal_view.is_none() {
            self.services[index].terminal_view = Some(view);
            true
        } else {
            false
        }
    }

    /// Attaches each view of `views` to the service at its index, in order;
    /// drawing the panel makes one view for each index of `views_to_create`
    /// and hands them over here.
    pub fn attach_terminal_views(&mut self, views: Vec<(usize, V)>)
        ensures
            final(self).services() == after_attach_views(old(self).services(), views@),
            final(self).dock() == old(self).dock(),
    {
        let ghost input = views@;
        let ghost start = self.services@;
        let total = views.len();
        let mut rest = views;
        let mut done: usize = 0;
        proof {
            assert(input.take(0) =~= Seq::<(usize, V)>::empty());
            assert(input.skip(0) =~= input);
        }
        while rest.len() > 0
            invariant
                done <= input.len(),
                total == input.len(),
                rest@ == input.skip(done as int),
                self.services@ == after_attach_views(start, input.take(done as int)),
                self.position == old(self).position,
            decreases rest.len(),
        {
            let (index, view) = rest.remove(0);
            proof {
                assert(input[done as int] == (index, view));
                assert(input.take(done + 1).drop_last() =~= input.take(done as int));
                assert(input.take(done + 1).last() == (index, view));
                assert(input.skip(done + 1) =~= rest@);
            }
            self.attach_terminal_view(index, view);
            done = done + 1;
        }
        proof {
            assert(input.take(done as int) =~= input);
        }
    }

    /// The terminal of the service at `index`.
    pub fn terminal(&self, index: usize) -> (r: Option<&T>)
        ensures
            match r {
                Some(t) => index < self.services().len() && *t == self.services()[index as int].terminal,
                None => index >= self.services().len(),
            },
    {
        if index < self.services.len() {
            Some(&self.services[index].terminal)
        } else {
            None
        }
    }

    /// The view of the terminal of the service at `index`, if it has one.
    pub fn terminal_view(&self, index: usize) -> (r: Option<&V>)
        ensures
            match r {
                Some(v) => index < self.services().len() && self.services()[index as int].terminal_view
                    == Some(*v),
                None => index >= self.services().len() || self.services()[index as int].terminal_view is None,
            },
    {
        if index < self.services.len() {
            match &self.services[index].terminal_view {
                Some(v) => Some(v),
                None => None,
            }
        } else {
            None
        }
    }

    /// What the row of the service at `index` shows.
    pub fn row(&self, index: usize) -> (r: Option<ServiceRow<I>>)
        where
            I: Copy,
        ensures
            match r {
                Some(row) => index < self.services().len() && row_fields(row) == row_of(
                    self.services()[index as int],
                ),
                None => index >= self.services().len(),
            },
            r matches Some(row) ==> {
                let s = self.services()[index as int];
                &&& row.name@ == s.name@
                &&& row.custom_icon == s.custom_icon
                &&& (row.icon == RowIcon::<I>::Server <==> s.custom_icon is None)
                &&& (s.custom_icon is Some ==> row.icon == RowIcon::Custom(s.custom_icon->0))
                &&& (row.disclosure == Disclosure::ChevronDown <==> s.is_expanded)
                &&& row.is_expanded == s.is_expanded
                &&& row.renaming == (s.rename_editor is Some)
                &&& row.shows_terminal == (s.is_expanded && s.terminal_view is Some)
            },
    {
        if index >= self.services.len() {
            return None;
        }
        let s = &self.services[index];
        let icon = match s.custom_icon {
            Some(i) => RowIcon::Custom(i),
            None => RowIcon::Server,
        };
        let disclosure = if s.is_expanded {
            Disclosure::ChevronDown
        } else {
            Disclosure::ChevronRight
        };
        Some(
            ServiceRow {
                name: s.name.clone(),
                icon,
                custom_icon: s.custom_icon,
                disclosure,
                is_expanded: s.is_expanded,
                renaming: s.rename_editor.is_some(),
                shows_terminal: s.is_expanded && s.terminal_view.is_some(),
            },
        )
    }
}

/// Whether the editor with `key` is the one in which the service at `index`
/// is being renamed.
pub open spec fn is_current_editor<T, V, E, I>(s: Seq<Service<T, V, E, I>>, index: int, key: u64) -> bool {
    &&& 0 <= index < s.len()
    &&& s[index].rename_editor is Some
    &&& s[index].rename_editor->0.key == key
}

/// Expanding a service and collapsing it again (or the other way round)
/// leaves the panel as it was.
pub proof fn lemma_toggle_twice<T, V, E, I>(s: Seq<Service<T, V, E, I>>, index: int)
    ensures
        after_toggle(after_toggle(s, index), index) == s,
{
    if 0 <= index < s.len() {
        assert(after_toggle(after_toggle(s, index), index) =~= s);
    }
}

/// Removing a service that was just added gives back the earlier list.
pub proof fn lemma_remove_added<T, V, E, I>(
    s: Seq<Service<T, V, E, I>>,
    name: String,
    custom_icon: Option<I>,
    terminal: T,
)
    ensures
        after_remove(s.push(new_service::<T, V, E, I>(name, custom_icon, terminal)), s.len() as int)
            == s,
{
    assert(s.push(new_service::<T, V, E, I>(name, custom_icon, terminal)).remove(s.len() as int) =~= s);
}

/// Once a new rename of a service has started, an editor of an earlier rename
/// of it is no longer current, so its losing focus ends nothing.
pub proof fn lemma_replaced_editor_not_current<T, V, E, I>(
    s: Seq<Service<T, V, E, I>>,
    index: int,
    earlier: u64,
    later: u64,
    editor: E,
)
    requires
        earlier != later,
    ensures
        !is_current_editor(after_start_renaming(s, index, later, editor), index, earlier),
        0 <= index < s.len() ==> is_current_editor(after_start_renaming(s, index, later, editor), index, later),
{
}

/// A rename that is not saved, or saved with only white space, leaves the name
/// as it was; a saved rename gives the trimmed text.
pub proof fn lemma_rename_outcome(old_name: Seq<char>, save: bool, text: Seq<char>)
    ensures
        !save ==> renamed_to(old_name, save, text) == old_name,
        trimmed(text).len() == 0 ==> renamed_to(old_name, save, text) == old_name,
        save && trimmed(text).len() > 0 ==> renamed_to(old_name, save, text) == trimmed(text),
{
}

/// Setting the icon that a service already has changes nothing, so setting
/// an icon twice is the same as setting it once.
pub proof fn lemma_set_icon_idempotent<T, V, E, I>(s: Seq<Service<T, V, E, I>>, index: int, icon: Option<I>)
    ensures
        after_set_icon(after_set_icon(s, index, icon), index, icon) == after_set_icon(s, index, icon),
        0 <= index < s.len() ==> after_set_icon(s, index, icon)[index].custom_icon == icon,
{
    if 0 <= index < s.len() {
        assert(after_set_icon(after_set_icon(s, index, icon), index, icon) =~= after_set_icon(s, index, icon));
    }
}

/// Once a view is attached to a service, it no longer needs one, and the
/// other services are unchanged.
pub proof fn lemma_attach_view_satisfies<T, V, E, I>(s: Seq<Service<T, V, E, I>>, index: int, view: V)
    ensures
        after_attach_view(s, index, view).len() == s.len(),
        0 <= index < s.len() ==> !needs_view(after_attach_view(s, index, view)[index]),
        forall|j: int| 0 <= j < s.len() && j != index ==> after_attach_view(s, index, view)[j] == s[j],
{
}

/// After a rename has ended the service is no longer being renamed, so
/// ending it a second time does nothing.
pub proof fn lemma_finish_renaming_ends_rename<T, V, E, I>(
    old: Seq<Service<T, V, E, I>>,
    new: Seq<Service<T, V, E, I>>,
    index: int,
)
    requires
        finished_renaming_except_name(old, new, index),
        is_renaming(old, index),
    ensures
        !is_renaming(new, index),
        finished_renaming_except_name(new, new, index),
{
}

proof fn lemma_attach_views_effect<T, V, E, I>(s: Seq<Service<T, V, E, I>>, views: Seq<(usize, V)>)
    ensures
        after_attach_views(s, views).len() == s.len(),
        forall|j: int|
            0 <= j < s.len() ==> (needs_view(#[trigger] after_attach_views(s, views)[j]) <==> (needs_view(
                s[j],
            ) && !has_view_for(views, j))),
        forall|j: int|
            0 <= j < s.len() ==> differs_at_most_in_view(#[trigger] after_attach_views(s, views)[j], s[j]),
        forall|j: int|
            0 <= j < s.len() && !needs_view(s[j]) ==> #[trigger] after_attach_views(s, views)[j] == s[j],
    decreases views.len(),
{
    if views.len() > 0 {
        let init = views.drop_last();
        lemma_attach_views_effect(s, init);
        let r0 = after_attach_views(s, init);
        let (idx, v) = views.last();
        assert forall|j: int| 0 <= j < s.len() implies (needs_view(
            #[trigger] after_attach_views(s, views)[j],
        ) <==> (needs_view(s[j]) && !has_view_for(views, j))) by {
            assert(needs_view(r0[j]) <==> (needs_view(s[j]) && !has_view_for(init, j)));
            if has_view_for(init, j) {
                let k = choose|k: int| 0 <= k < init.len() && #[trigger] init[k].0 == j;
                assert(views[k].0 == j);
            }
            if has_view_for(views, j) && !has_view_for(init, j) {
                let k = choose|k: int| 0 <= k < views.len() && #[trigger] views[k].0 == j;
                if k < views.len() - 1 {
                    assert(init[k].0 == j);
                }
            }
            if j == idx as int {
                assert(views[views.len() - 1].0 == j);
            }
        }
    }
}

/// One drawing pass, which makes a view for every service that needs one,
/// leaves no service needing a view, so a second pass makes none; the
/// services change in nothing but their views, and those that needed none
/// not at all.
pub proof fn lemma_render_pass_complete<T, V, E, I>(s: Seq<Service<T, V, E, I>>, views: Seq<(usize, V)>)
    requires
        forall|j: int| 0 <= j < s.len() && needs_view(#[trigger] s[j]) ==> has_view_for(views, j),
    ensures
        after_attach_views(s, views).len() == s.len(),
        forall|j: int|
            0 <= j < s.len() ==> !needs_view(#[trigger] after_attach_views(s, views)[j]),
        forall|j: int|
            0 <= j < s.len() ==> differs_at_most_in_view(#[trigger] after_attach_views(s, views)[j], s[j]),
        forall|j: int|
            0 <= j < s.len() && !needs_view(s[j]) ==> #[trigger] after_attach_views(s, views)[j] == s[j],
{
    lemma_attach_views_effect(s, views);
    assert forall|j: int| 0 <= j < s.len() implies !needs_view(
        #[trigger] after_attach_views(s, views)[j],
    ) by {
        if needs_view(s[j]) {
            assert(has_view_for(views, j));
        }
    }
}

/// A new service has the name, icon and terminal it was given, is collapsed,
/// has no view yet and is not being renamed.
pub proof fn lemma_new_service_as_given<T, V, E, I>(name: String, custom_icon: Option<I>, terminal: T)
    ensures
        ({
            let s = new_service::<T, V, E, I>(name, custom_icon, terminal);
            &&& s.name == name
            &&& s.custom_icon == custom_icon
            &&& s.terminal == terminal
            &&& s.terminal_view is None
            &&& !s.is_expanded
            &&& s.rename_editor is None
        }),
{
}

/// Removing the service at a valid index keeps the others in their order:
/// those before it stay where they are and those after it move up one place.
/// Any other index changes nothing.
pub proof fn lemma_remove_keeps_order<T, V, E, I>(s: Seq<Service<T, V, E, I>>, index: int)
    ensures
        0 <= index < s.len() ==> after_remove(s, index).len() == s.len() - 1,
        0 <= index < s.len() ==> forall|j: int|
            0 <= j < index ==> #[trigger] after_remove(s, index)[j] == s[j],
        0 <= index < s.len() ==> forall|j: int|
            index <= j < s.len() - 1 ==> #[trigger] after_remove(s, index)[j] == s[j + 1],
        !(0 <= index < s.len()) ==> after_remove(s, index) == s,
{
}

/// Toggling a service flips its expansion and changes nothing else.
pub proof fn lemma_toggle_effect<T, V, E, I>(s: Seq<Service<T, V, E, I>>, index: int)
    ensures
        after_toggle(s, index).len() == s.len(),
        forall|j: int|
            0 <= j < s.len() && j != index ==> #[trigger] after_toggle(s, index)[j] == s[j],
        0 <= index < s.len() ==> after_toggle(s, index)[index].is_expanded == !s[index].is_expanded,
        0 <= index < s.len() ==> {
            let t = after_toggle(s, index)[index];
            &&& t.name == s[index].name
            &&& t.custom_icon == s[index].custom_icon
            &&& t.terminal == s[index].terminal
            &&& t.terminal_view == s[index].terminal_view
            &&& t.rename_editor == s[index].rename_editor
        },
{
}

/// Starting a rename gives the service the new editor and key and changes
/// nothing else.
pub proof fn lemma_start_renaming_effect<T, V, E, I>(
    s: Seq<Service<T, V, E, I>>,
    index: int,
    key: u64,
    editor: E,
)
    ensures
        after_start_renaming(s, index, key, editor).len() == s.len(),
        forall|j: int|
            0 <= j < s.len() && j != index ==> #[trigger] after_start_renaming(s, index, key, editor)[j]
                == s[j],
        0 <= index < s.len() ==> {
            let t = after_start_renaming(s, index, key, editor)[index];
            &&& t.rename_editor is Some
            &&& t.rename_editor->0.key == key
            &&& t.rename_editor->0.editor == editor
            &&& t.name == s[index].name
            &&& t.custom_icon == s[index].custom_icon
            &&& t.terminal == s[index].terminal
            &&& t.terminal_view == s[index].terminal_view
            &&& t.is_expanded == s[index].is_expanded
        },
{
}

/// Setting an icon gives the service that icon and changes nothing else.
pub proof fn lemma_set_icon_effect<T, V, E, I>(s: Seq<Service<T, V, E, I>>, index: int, icon: Option<I>)
    ensures
        after_set_icon(s, index, icon).len() == s.len(),
        forall|j: int|
            0 <= j < s.len() && j != index ==> #[trigger] after_set_icon(s, index, icon)[j] == s[j],
        0 <= index < s.len() ==> {
            let t = after_set_icon(s, index, icon)[index];
            &&& t.custom_icon == icon
            &&& t.name == s[index].name
            &&& t.terminal == s[index].terminal
            &&& t.terminal_view == s[index].terminal_view
            &&& t.is_expanded == s[index].is_expanded
            &&& t.rename_editor == s[index].rename_editor
        },
{
}

/// Attaching a view to a service that needs one gives it exactly that view
/// and changes nothing else; a service that needs none is left alone.
pub proof fn lemma_attach_view_effect<T, V, E, I>(s: Seq<Service<T, V, E, I>>, index: int, view: V)
    ensures
        0 <= index < s.len() && needs_view(s[index]) ==> after_attach_view(s, index, view)[index].terminal_view
            == Some(view) && differs_at_most_in_view(after_attach_view(s, index, view)[index], s[index]),
        !(0 <= index < s.len() && needs_view(s[index])) ==> after_attach_view(s, index, view) == s,
{
}

/// A row shows the service's own name and icon (the server icon when it has
/// none), points down exactly when the service is expanded, marks a rename in
/// progress, and shows the terminal exactly when the service is expanded and
/// has a view.
pub proof fn lemma_row_shows_service<T, V, E, I>(s: Service<T, V, E, I>)
    ensures
        row_of(s).0 == s.name@,
        row_of(s).2 == s.custom_icon,
        row_of(s).1 == RowIcon::<I>::Server <==> s.custom_icon is None,
        s.custom_icon is Some ==> row_of(s).1 == RowIcon::Custom(s.custom_icon->0),
        row_of(s).3 == Disclosure::ChevronDown <==> s.is_expanded,
        row_of(s).4 == s.is_expanded,
        row_of(s).5 == (s.rename_editor is Some),
        row_of(s).6 == (s.is_expanded && s.terminal_view is Some),
{
}

} // verus!
