use vstd::prelude::*;

use crate::paths::{
    expand_tilde, join_path, join_stays_inside, joins_strictly_inside, lemma_join_relative_extends,
    path_join, scan_path, tilde_expanded,
};
use crate::text::{lemma_seq_le_total_preorder, seq_le, seq_lt, str_lt};

verus! {

broadcast use vstd::seq_lib::group_seq_properties;

/// The settings of one container: its name, a free-form description, and the
/// four directories in which a Zed instance that runs in it keeps its data,
/// configuration, logs and cache.
#[derive(Clone, Debug, PartialEq, Eq)]
pub struct ContainerConfig {
    pub name: String,
    pub description: String,
    pub data_dir: String,
    pub config_dir: String,
    pub logs_dir: String,
    pub cache_dir: String,
}

/// Why a container could not be created.
#[derive(Clone, Debug, PartialEq, Eq)]
pub enum ContainerError {
    /// The requested name was empty.
    EmptyName,
    /// A container of that name exists already.
    AlreadyExists(String),
    /// The name does not lead strictly inside the directory of all
    /// containers, so no container directory can be deleted for it.
    InvalidName(String),
}

/// Where a new container goes: its directory, the file that holds its
/// configuration, and that configuration, whose four directories lie in the
/// container's directory.
#[derive(Clone, Debug, PartialEq, Eq)]
pub struct ContainerLayout {
    pub container_dir: String,
    pub config_path: String,
    pub config: ContainerConfig,
}

/// One step of creating a container on disk.
#[derive(Clone, Debug, PartialEq, Eq)]
pub enum CreationStep {
    /// Make the directory and any missing parents.
    CreateDir(String),
    /// Stop with `ContainerError::AlreadyExists` if the path exists.
    RequireAbsent(String),
    /// Write the container's configuration to the file.
    WriteConfig(String),
}

/// The four directories of a container once a leading `~` in each has been
/// expanded, in the order data, config, logs, cache.
#[derive(Clone, Debug, PartialEq, Eq)]
pub struct ContainerPaths {
    pub data_dir: String,
    pub config_dir: String,
    pub logs_dir: String,
    pub cache_dir: String,
}

/// Where, below the home directory, the containers live.
pub open spec fn containers_root(home: Seq<char>) -> Seq<char> {
    path_join(home, ".config/zed/Containers"@)
}

/// The directory of the container called `name`.
pub open spec fn container_dir_of(root: Seq<char>, name: Seq<char>) -> Seq<char> {
    path_join(root, name)
}

/// The file, inside a container's directory, that holds its configuration.
pub open spec fn config_file_of(dir: Seq<char>) -> Seq<char> {
    path_join(dir, "config.json"@)
}

/// The configuration that creating the container `name` writes.
pub open spec fn new_config(root: Seq<char>, name: Seq<char>, description: Seq<char>) -> (
    Seq<char>,
    Seq<char>,
    Seq<char>,
    Seq<char>,
    Seq<char>,
    Seq<char>,
) {
    let dir = container_dir_of(root, name);
    (
        name,
        description,
        path_join(dir, "data"@),
        path_join(dir, "config"@),
        path_join(dir, "logs"@),
        path_join(dir, "cache"@),
    )
}

/// The fields of a configuration as plain character sequences.
pub open spec fn config_fields(c: ContainerConfig) -> (
    Seq<char>,
    Seq<char>,
    Seq<char>,
    Seq<char>,
    Seq<char>,
    Seq<char>,
) {
    (c.name@, c.description@, c.data_dir@, c.config_dir@, c.logs_dir@, c.cache_dir@)
}

/// The text that `ContainerError::message` gives.
pub open spec fn error_message(e: ContainerError) -> Seq<char> {
    match e {
        ContainerError::EmptyName => "Container name cannot be empty"@,
        ContainerError::AlreadyExists(name) => "Container '"@ + name@ + "' already exists"@,
        ContainerError::InvalidName(name) => "Invalid container name '"@ + name@ + "'"@,
    }
}

impl ContainerError {
    /// The message shown to the user for this error.
    pub fn message(&self) -> (r: String)
        ensures
            r@ == error_message(*self),
    {
        match self {
            ContainerError::EmptyName => String::from_str("Container name cannot be empty"),
            ContainerError::AlreadyExists(name) => {
                let mut r = String::from_str("Container '");
                r.append(name.as_str());
                r.append("' already exists");
                r
            },
            ContainerError::InvalidName(name) => {
                let mut r = String::from_str("Invalid container name '");
                r.append(name.as_str());
                r.append("'");
                r
            },
        }
    }
}

/// Returns the directory that holds all containers, below `home`.
pub fn containers_dir(home: &str) -> (r: String)
    ensures
        r@ == containers_root(home@),
{
    join_path(home, ".config/zed/Containers")
}

/// Returns the directory of the container called `name`.
pub fn container_dir(containers_dir: &str, name: &str) -> (r: String)
    ensures
        r@ == container_dir_of(containers_dir@, name@),
{
    join_path(containers_dir, name)
}

/// Returns the configuration file inside a container's directory.
pub fn config_file(container_dir: &str) -> (r: String)
    ensures
        r@ == config_file_of(container_dir@),
{
    join_path(container_dir, "config.json")
}

/// Returns the configuration file of the container called `name`, the file
/// whose path a launched instance is given.
pub fn container_config_path(containers_dir: &str, name: &str) -> (r: String)
    ensures
        r@ == config_file_of(container_dir_of(containers_dir@, name@)),
{
    let dir = container_dir(containers_dir, name);
    config_file(dir.as_str())
}

/// Lays out a new container called `name` below `containers_dir`: the name
/// must not be empty; the container's directory is `containers_dir/name`, it
/// gets the subdirectories `data`, `config`, `logs` and `cache`, and its
/// configuration goes to `config.json` in it.
pub fn container_layout(containers_dir: &str, name: &str, description: &str) -> (r: Result<
    ContainerLayout,
    ContainerError,
>)
    ensures
        r is Err <==> name@.len() == 0,
        r matches Err(e) ==> e == ContainerError::EmptyName,
        r matches Ok(l) ==> {
            &&& l.container_dir@ == container_dir_of(containers_dir@, name@)
            &&& l.config_path@ == config_file_of(l.container_dir@)
            &&& config_fields(l.config) == new_config(containers_dir@, name@, description@)
            &&& l.config.name@ == name@
            &&& l.config.description@ == description@
        },
{
    if name.is_empty() {
        return Err(ContainerError::EmptyName);
    }
    let dir = container_dir(containers_dir, name);
    let data_dir = join_path(dir.as_str(), "data");
    let config_dir = join_path(dir.as_str(), "config");
    let logs_dir = join_path(dir.as_str(), "logs");
    let cache_dir = join_path(dir.as_str(), "cache");
    let config_path = config_file(dir.as_str());
    let config = ContainerConfig {
        name: String::from_str(name),
        description: String::from_str(description),
        data_dir,
        config_dir,
        logs_dir,
        cache_dir,
    };
    Ok(ContainerLayout { container_dir: dir, config_path, config })
}

/// The steps that create the container of `layout` below `containers_dir`, in
/// the order in which they are taken; the first that fails ends the creation.
pub open spec fn creation_steps(containers_dir: Seq<char>, layout: ContainerLayout) -> Seq<(int, Seq<char>)> {
    seq![
        (0, containers_dir),
        (1, layout.container_dir@),
        (0, layout.config.data_dir@),
        (0, layout.config.config_dir@),
        (0, layout.config.logs_dir@),
        (0, layout.config.cache_dir@),
        (2, layout.config_path@),
    ]
}

/// A step as a kind (0 make a directory, 1 require absence, 2 write the
/// configuration) and a path.
pub open spec fn step_view(s: CreationStep) -> (int, Seq<char>) {
    match s {
        CreationStep::CreateDir(p) => (0, p@),
        CreationStep::RequireAbsent(p) => (1, p@),
        CreationStep::WriteConfig(p) => (2, p@),
    }
}

impl ContainerLayout {
    /// The steps that create this container below `containers_dir`: make the
    /// directory of all containers, refuse if the container's directory exists,
    /// make its data, config, logs and cache directories, then write its
    /// configuration file.
    pub fn steps(&self, containers_dir: &str) -> (r: Vec<CreationStep>)
        ensures
            r@.map_values(|s: CreationStep| step_view(s)) == creation_steps(containers_dir@, *self),
    {
        let mut r: Vec<CreationStep> = Vec::new();
        r.push(CreationStep::CreateDir(String::from_str(containers_dir)));
        r.push(CreationStep::RequireAbsent(self.container_dir.clone()));
        r.push(CreationStep::CreateDir(self.config.data_dir.clone()));
        r.push(CreationStep::CreateDir(self.config.config_dir.clone()));
        r.push(CreationStep::CreateDir(self.config.logs_dir.clone()));
        r.push(CreationStep::CreateDir(self.config.cache_dir.clone()));
        r.push(CreationStep::WriteConfig(self.config_path.clone()));
        assert(r@.map_values(|s: CreationStep| step_view(s)) =~= creation_steps(containers_dir@, *self));
        r
    }
}

/// The outcome of the step that requires the container's directory to be
/// absent: creation goes on when nothing is there and stops otherwise.
pub fn require_absent(name: &str, exists: bool) -> (r: Result<(), ContainerError>)
    ensures
        r is Ok <==> !exists,
        r matches Err(e) ==> e matches ContainerError::AlreadyExists(n) && n@ == name@,
{
    if exists {
        Err(ContainerError::AlreadyExists(String::from_str(name)))
    } else {
        Ok(())
    }
}

/// Whether `name` is a single path component: not empty, without `/`, and
/// neither `.` nor `..`.
pub open spec fn is_single_component(name: Seq<char>) -> bool {
    &&& name.len() > 0
    &&& !name.contains('/')
    &&& !(name =~= seq!['.'])
    &&& !(name =~= seq!['.', '.'])
}

/// The directory that deleting the container called `name` removes: the
/// container's own directory, when it lies strictly inside the directory of
/// all containers. A name that leads to that directory itself (such as the
/// empty name, `.` or `a/..`) or out of it (such as `..` or `/etc`) is
/// refused, so that deleting one container never removes the others.
pub fn deletion_dir(containers_dir: &str, name: &str) -> (r: Result<String, ContainerError>)
    ensures
        r is Ok <==> joins_strictly_inside(containers_dir@, name@),
        r matches Ok(d) ==> d@ == container_dir_of(containers_dir@, name@),
        r matches Err(e) ==> e matches ContainerError::InvalidName(n) && n@ == name@,
{
    if join_stays_inside(containers_dir, name) {
        Ok(container_dir(containers_dir, name))
    } else {
        Err(ContainerError::InvalidName(String::from_str(name)))
    }
}

proof fn lemma_scan_single(s: Seq<char>)
    requires
        !s.contains('/'),
    ensures
        scan_path(s) == (Some(0int), s),
    decreases s.len(),
{
    if s.len() > 0 {
        assert(!s.drop_last().contains('/')) by {
            if s.drop_last().contains('/') {
                let k = choose|k: int| 0 <= k < s.drop_last().len() && s.drop_last()[k] == '/';
                assert(s[k] == '/');
            }
        }
        lemma_scan_single(s.drop_last());
        assert(s[s.len() - 1] != '/') by {
            if s[s.len() - 1] == '/' {
                assert(s.contains('/'));
            }
        }
        assert(s.drop_last().push(s.last()) =~= s);
    } else {
        assert(s =~= Seq::<char>::empty());
    }
}

/// Every name that is a single path component can be deleted.
pub proof fn lemma_single_component_deletable(root: Seq<char>, name: Seq<char>)
    requires
        is_single_component(name),
    ensures
        joins_strictly_inside(root, name),
{
    lemma_scan_single(name);
    assert(name[0] != '/') by {
        if name[0] == '/' {
            assert(name.contains('/'));
        }
    }
}

/// Whether `path` is `dir` or lies inside it.
pub open spec fn path_within(path: Seq<char>, dir: Seq<char>) -> bool {
    path == dir || (dir + seq!['/']).is_prefix_of(path)
}

/// Two containers with different names, each a single path component, get
/// directories of which neither lies inside the other: deleting one leaves
/// the other alone.
pub proof fn lemma_distinct_containers_disjoint(root: Seq<char>, a: Seq<char>, b: Seq<char>)
    requires
        is_single_component(a),
        is_single_component(b),
        a != b,
    ensures
        !path_within(container_dir_of(root, a), container_dir_of(root, b)),
        !path_within(container_dir_of(root, b), container_dir_of(root, a)),
{
    let p = if root.len() == 0 || root.last() == '/' {
        root
    } else {
        root + seq!['/']
    };
    assert(a[0] != '/') by {
        if a[0] == '/' {
            assert(a.contains('/'));
        }
    }
    assert(b[0] != '/') by {
        if b[0] == '/' {
            assert(b.contains('/'));
        }
    }
    assert(container_dir_of(root, a) =~= p + a);
    assert(container_dir_of(root, b) =~= p + b);
    lemma_not_within(p, a, b);
    lemma_not_within(p, b, a);
}

proof fn lemma_not_within(p: Seq<char>, a: Seq<char>, b: Seq<char>)
    requires
        is_single_component(a),
        is_single_component(b),
        a != b,
    ensures
        !path_within(p + a, p + b),
{
    if p + a == p + b {
        assert(a =~= (p + a).skip(p.len() as int));
        assert(b =~= (p + b).skip(p.len() as int));
    }
    if (p + b + seq!['/']).is_prefix_of(p + a) {
        let k = (p.len() + b.len()) as int;
        let q = p + b + seq!['/'];
        assert(q[k] == '/');
        assert(q =~= (p + a).subrange(0, q.len() as int));
        assert((p + a).subrange(0, q.len() as int)[k] == (p + a)[k]);
        assert((p + a)[k] == '/');
        assert(a[b.len() as int] == '/');
        assert(a.contains('/'));
    }
}

/// The directories that Zed is pointed at when it runs in the container: each
/// of the configuration's four directories with a leading `~` expanded.
pub fn expanded_container_paths(config: &ContainerConfig, home: &str) -> (r: ContainerPaths)
    ensures
        r.data_dir@ == tilde_expanded(config.data_dir@, home@),
        r.config_dir@ == tilde_expanded(config.config_dir@, home@),
        r.logs_dir@ == tilde_expanded(config.logs_dir@, home@),
        r.cache_dir@ == tilde_expanded(config.cache_dir@, home@),
{
    ContainerPaths {
        data_dir: expand_tilde(config.data_dir.as_str(), home),
        config_dir: expand_tilde(config.config_dir.as_str(), home),
        logs_dir: expand_tilde(config.logs_dir.as_str(), home),
        cache_dir: expand_tilde(config.cache_dir.as_str(), home),
    }
}

/// Whether the containers are in order of their names.
pub open spec fn sorted_by_name(s: Seq<ContainerConfig>) -> bool {
    forall|i: int, j: int| 0 <= i < j < s.len() ==> seq_le(s[i].name@, s[j].name@)
}

/// The containers called `name`, in the order in which they occur.
pub open spec fn named(s: Seq<ContainerConfig>, name: Seq<char>) -> Seq<ContainerConfig> {
    s.filter(has_name(name))
}

/// The test for a container called `name`.
pub open spec fn has_name(name: Seq<char>) -> spec_fn(ContainerConfig) -> bool {
    |c: ContainerConfig| c.name@ == name
}

/// `out` is what a stable sort by name makes of `input`: it is in order of
/// name, and the containers of each name occur in it in the order in which
/// they occur in `input`.
pub open spec fn stable_sorted_by_name(out: Seq<ContainerConfig>, input: Seq<ContainerConfig>) -> bool {
    &&& sorted_by_name(out)
    &&& forall|name: Seq<char>| #[trigger] named(out, name) == named(input, name)
}

/// How many of the entries hold a configuration.
pub open spec fn number_found(found: Seq<Option<ContainerConfig>>) -> nat {
    found.filter(|o: Option<ContainerConfig>| o is Some).len()
}

/// The configurations that were found, in the order in which they were found.
pub open spec fn found_configs(found: Seq<Option<ContainerConfig>>) -> Seq<ContainerConfig> {
    found.filter_map(|o: Option<ContainerConfig>| o)
}

proof fn lemma_filter_insert(
    s: Seq<ContainerConfig>,
    p: int,
    x: ContainerConfig,
    f: spec_fn(ContainerConfig) -> bool,
)
    requires
        0 <= p <= s.len(),
        f(x) ==> forall|q: int| p <= q < s.len() ==> !f(#[trigger] s[q]),
    ensures
        s.insert(p, x).filter(f) == if f(x) {
            s.filter(f).push(x)
        } else {
            s.filter(f)
        },
{
    let a = s.take(p);
    let b = s.skip(p);
    assert(s.insert(p, x) =~= (a + seq![x]) + b);
    assert(s =~= a + b);
    assert(a + seq![x] =~= a.push(x));
    Seq::filter_distributes_over_add(a.push(x), b, f);
    Seq::filter_distributes_over_add(a, b, f);
    a.lemma_filter_push(x, f);
    if f(x) {
        assert forall|q: int| 0 <= q < b.len() implies !f(b[q]) by {
            assert(b[q] == s[q + p]);
        }
        b.lemma_all_neg_filter_empty(f);
        assert(b.filter(f) =~= Seq::<ContainerConfig>::empty());
        assert(a.filter(f).push(x) + b.filter(f) =~= a.filter(f).push(x));
        assert(a.filter(f) + b.filter(f) =~= a.filter(f));
    }
}

proof fn lemma_named_insert(s: Seq<ContainerConfig>, p: int, x: ContainerConfig, name: Seq<char>)
    requires
        0 <= p <= s.len(),
        forall|q: int| p <= q < s.len() ==> s[q].name@ != x.name@,
    ensures
        named(s.insert(p, x), name) == if x.name@ == name {
            named(s, name).push(x)
        } else {
            named(s, name)
        },
{
    lemma_filter_insert(s, p, x, has_name(name));
}

/// Sorts the containers by name; containers of equal names keep their order.
pub fn sort_by_name(containers: Vec<ContainerConfig>) -> (r: Vec<ContainerConfig>)
    ensures
        stable_sorted_by_name(r@, containers@),
        r@.to_multiset() =~= containers@.to_multiset(),
        r@.len() == containers@.len(),
{
    let ghost input = containers@;
    let total = containers.len();
    let mut rest = containers;
    let mut sorted: Vec<ContainerConfig> = Vec::new();
    let mut done: usize = 0;
    proof {
        assert(input.take(0) =~= Seq::<ContainerConfig>::empty());
        assert(input.skip(0) =~= input);
        assert forall|name: Seq<char>| #[trigger] named(sorted@, name) == named(input.take(0), name) by {
            reveal(Seq::filter);
        }
    }
    while rest.len() > 0
        invariant
            done <= input.len(),
            total == input.len(),
            rest@ == input.skip(done as int),
            sorted_by_name(sorted@),
            forall|name: Seq<char>| #[trigger] named(sorted@, name) == named(input.take(done as int), name),
        decreases rest.len(),
    {
        let x = rest.remove(0);
        let ghost old_sorted = sorted@;
        let mut p: usize = sorted.len();
        while p > 0 && str_lt(x.name.as_str(), sorted[p - 1].name.as_str())
            invariant
                sorted@ == old_sorted,
                p <= sorted.len(),
                forall|q: int| p <= q < sorted.len() ==> seq_lt(x.name@, #[trigger] sorted@[q].name@),
            decreases p,
        {
            p = p - 1;
        }
        proof {
            assert forall|q: int| 0 <= q < p implies seq_le(#[trigger] sorted@[q].name@, x.name@) by {
                lemma_seq_le_total_preorder(sorted@[q].name@, sorted@[p - 1].name@, x.name@);
            }
            assert forall|q: int| p <= q < sorted@.len() implies sorted@[q].name@ != x.name@ by {
                lemma_seq_le_total_preorder(x.name@, x.name@, x.name@);
            }
            assert forall|name: Seq<char>| #[trigger] named(sorted@.insert(p as int, x), name) == named(
                input.take(done + 1),
                name,
            ) by {
                lemma_named_insert(sorted@, p as int, x, name);
                assert(input.take(done + 1) =~= input.take(done as int).push(x));
                input.take(done as int).lemma_filter_push(x, has_name(name));
            }
            let s2 = sorted@.insert(p as int, x);
            assert forall|i: int, j: int| 0 <= i < j < s2.len() implies seq_le(
                s2[i].name@,
                s2[j].name@,
            ) by {
                if i < p && j == p {
                } else if i == p && j > p {
                    lemma_seq_le_total_preorder(x.name@, s2[j].name@, s2[j].name@);
                } else if i < p && j > p {
                    lemma_seq_le_total_preorder(s2[i].name@, x.name@, s2[j].name@);
                } else if j < p {
                } else {
                    assert(s2[i] == sorted@[i - 1]);
                    assert(s2[j] == sorted@[j - 1]);
                }
            }
            assert(input.skip(done + 1) =~= rest@);
        }
        sorted.insert(p, x);
        done = done + 1;
    }
    proof {
        assert(input.take(done as int) =~= input);
        lemma_stable_sort_keeps_containers(sorted@, input);
    }
    sorted
}

/// Gathers the configurations that could be read, sorted by name (a stable
/// sort: configurations of equal names keep the order in which they were
/// found).
pub fn collect_containers(found: Vec<Option<ContainerConfig>>) -> (r: Vec<ContainerConfig>)
    ensures
        stable_sorted_by_name(r@, found_configs(found@)),
        forall|c: ContainerConfig| #[trigger] r@.to_multiset().count(c) == found@.to_multiset().count(Some(c)),
        r@.len() == number_found(found@),
{
    let ghost input = found@;
    let total = found.len();
    let mut rest = found;
    let mut kept: Vec<ContainerConfig> = Vec::new();
    let mut done: usize = 0;
    proof {
        assert(input.take(0) =~= Seq::<Option<ContainerConfig>>::empty());
        assert(input.skip(0) =~= input);
    }
    while rest.len() > 0
        invariant
            done <= input.len(),
            total == input.len(),
            rest@ == input.skip(done as int),
            kept@ == found_configs(input.take(done as int)),
        decreases rest.len(),
    {
        let o = rest.remove(0);
        proof {
            input.lemma_filter_map_take_succ(|o: Option<ContainerConfig>| o, done as int);
            assert(input.skip(done + 1) =~= rest@);
        }
        match o {
            Some(c) => {
                kept.push(c);
            },
            None => {},
        }
        done = done + 1;
        proof {
            assert(kept@ =~= found_configs(input.take(done as int)));
        }
    }
    proof {
        assert(input.take(done as int) =~= input);
    }
    let r = sort_by_name(kept);
    proof {
        lemma_stable_sort_keeps_containers(r@, found_configs(input));
        lemma_found_configs_counts(input);
    }
    r
}

proof fn lemma_count_in_filter(s: Seq<ContainerConfig>, f: spec_fn(ContainerConfig) -> bool, c: ContainerConfig)
    requires
        f(c),
    ensures
        s.filter(f).to_multiset().count(c) == s.to_multiset().count(c),
    decreases s.len(),
{
    broadcast use vstd::seq_lib::group_to_multiset_ensures;

    if s.len() > 0 {
        let init = s.drop_last();
        let x = s.last();
        lemma_count_in_filter(init, f, c);
        assert(init.push(x) =~= s);
        init.lemma_filter_push(x, f);
    } else {
        reveal(Seq::filter);
    }
}

/// A stable sort by name neither loses, adds nor repeats a container: its
/// result holds each configuration as often as its input.
pub proof fn lemma_stable_sort_keeps_containers(out: Seq<ContainerConfig>, input: Seq<ContainerConfig>)
    requires
        stable_sorted_by_name(out, input),
    ensures
        out.to_multiset() =~= input.to_multiset(),
        out.len() == input.len(),
{
    broadcast use vstd::seq_lib::group_to_multiset_ensures;

    assert forall|c: ContainerConfig| out.to_multiset().count(c) == input.to_multiset().count(c) by {
        lemma_count_in_filter(out, has_name(c.name@), c);
        lemma_count_in_filter(input, has_name(c.name@), c);
        assert(named(out, c.name@) == named(input, c.name@));
    }
    assert(out.to_multiset() =~= input.to_multiset());
    assert(out.len() == out.to_multiset().len());
    assert(input.len() == input.to_multiset().len());
}


/// Everything that creating a container makes (its four directories and its
/// configuration file) lies inside its directory, the directory that deleting
/// the container removes.
pub proof fn lemma_layout_inside_container_dir(root: Seq<char>, name: Seq<char>, description: Seq<char>)
    ensures
        ({
            let dir = container_dir_of(root, name);
            let c = new_config(root, name, description);
            &&& dir.is_prefix_of(c.2)
            &&& dir.is_prefix_of(c.3)
            &&& dir.is_prefix_of(c.4)
            &&& dir.is_prefix_of(c.5)
            &&& dir.is_prefix_of(config_file_of(dir))
        }),
{
    reveal_strlit("data");
    reveal_strlit("config");
    reveal_strlit("logs");
    reveal_strlit("cache");
    reveal_strlit("config.json");
    let dir = container_dir_of(root, name);
    lemma_join_relative_extends(dir, "data"@);
    lemma_join_relative_extends(dir, "config"@);
    lemma_join_relative_extends(dir, "logs"@);
    lemma_join_relative_extends(dir, "cache"@);
    lemma_join_relative_extends(dir, "config.json"@);
}

/// The directory of all containers lies inside the home directory.
pub proof fn lemma_root_inside_home(home: Seq<char>)
    ensures
        home.is_prefix_of(containers_root(home)),
{
    reveal_strlit(".config/zed/Containers");
    lemma_join_relative_extends(home, ".config/zed/Containers"@);
}

/// For a name that is not an absolute path, the container's directory lies
/// inside the directory of all containers.
pub proof fn lemma_container_dir_inside_root(root: Seq<char>, name: Seq<char>)
    requires
        !(name.len() > 0 && name[0] == '/'),
    ensures
        root.is_prefix_of(container_dir_of(root, name)),
{
    lemma_join_relative_extends(root, name);
}

proof fn lemma_named_contains(s: Seq<ContainerConfig>, k: Seq<char>)
    requires
        named(s, k).len() > 0,
    ensures
        exists|i: int| 0 <= i < s.len() && s[i].name@ == k,
{
    let c = named(s, k)[0];
    s.lemma_filter_pred(has_name(k), 0);
    assert(named(s, k).contains(c));
    s.lemma_filter_contains_rev(has_name(k), c);
    let i = choose|i: int| 0 <= i < s.len() && s[i] == c;
    assert(s[i].name@ == k);
}

/// Two sequences in order of name that hold, name by name, the same
/// containers in the same order are equal: a stable sort by name has only one
/// possible result.
pub proof fn lemma_stable_sort_unique(a: Seq<ContainerConfig>, b: Seq<ContainerConfig>)
    requires
        sorted_by_name(a),
        sorted_by_name(b),
        forall|k: Seq<char>| #[trigger] named(a, k) == named(b, k),
    ensures
        a == b,
    decreases a.len() + b.len(),
{
    if a.len() == 0 && b.len() == 0 {
        assert(a =~= b);
    } else if a.len() == 0 || b.len() == 0 {
        let (x, y) = if a.len() > 0 { (a, b) } else { (b, a) };
        let k = x.last().name@;
        let init = x.drop_last();
        assert(init.push(x.last()) =~= x);
        init.lemma_filter_push(x.last(), has_name(k));
        assert(named(y, k) == named(x, k));
        assert(y =~= Seq::<ContainerConfig>::empty());
        reveal(Seq::filter);
        assert(false);
    } else {
        let ka = a.last().name@;
        let kb = b.last().name@;
        let ia = a.drop_last();
        let ib = b.drop_last();
        assert(ia.push(a.last()) =~= a);
        assert(ib.push(b.last()) =~= b);
        ia.lemma_filter_push(a.last(), has_name(ka));
        ib.lemma_filter_push(b.last(), has_name(kb));
        assert(named(b, ka) == named(a, ka));
        assert(named(a, kb) == named(b, kb));
        lemma_named_contains(b, ka);
        lemma_named_contains(a, kb);
        let i = choose|i: int| 0 <= i < b.len() && b[i].name@ == ka;
        let j = choose|j: int| 0 <= j < a.len() && a[j].name@ == kb;
        crate::text::lemma_seq_le_total_preorder(ka, kb, ka);
        if i < b.len() - 1 {
            assert(seq_le(b[i].name@, b[b.len() - 1].name@));
        }
        if j < a.len() - 1 {
            assert(seq_le(a[j].name@, a[a.len() - 1].name@));
        }
        crate::text::lemma_seq_lt_trichotomy(ka, kb);
        assert(ka == kb);
        ib.lemma_filter_push(b.last(), has_name(ka));
        assert(a.last() == named(a, ka).last());
        assert(b.last() == named(b, ka).last());
        assert(a.last() == b.last());
        assert forall|k: Seq<char>| #[trigger] named(ia, k) == named(ib, k) by {
            ia.lemma_filter_push(a.last(), has_name(k));
            ib.lemma_filter_push(b.last(), has_name(k));
            assert(named(a, k) == named(b, k));
            if k == ka {
                assert(named(ia, k) =~= named(a, k).drop_last());
                assert(named(ib, k) =~= named(b, k).drop_last());
            }
        }
        assert forall|p: int, q: int| 0 <= p < q < ia.len() implies seq_le(ia[p].name@, ia[q].name@) by {
            assert(ia[p] == a[p] && ia[q] == a[q]);
        }
        assert forall|p: int, q: int| 0 <= p < q < ib.len() implies seq_le(ib[p].name@, ib[q].name@) by {
            assert(ib[p] == b[p] && ib[q] == b[q]);
        }
        lemma_stable_sort_unique(ia, ib);
    }
}

/// Containers that are in order of name already come out of the sort as they
/// went in.
pub proof fn lemma_sorted_input_unchanged(out: Seq<ContainerConfig>, input: Seq<ContainerConfig>)
    requires
        sorted_by_name(input),
        stable_sorted_by_name(out, input),
    ensures
        out == input,
{
    lemma_stable_sort_unique(out, input);
}

/// The configurations that were found are exactly those of the entries that
/// hold one: each occurs as often as an entry holds it, and there are as
/// many as there are such entries.
pub proof fn lemma_found_configs_counts(found: Seq<Option<ContainerConfig>>)
    ensures
        forall|c: ContainerConfig|
            #[trigger] found_configs(found).to_multiset().count(c) == found.to_multiset().count(Some(c)),
        found_configs(found).len() == number_found(found),
    decreases found.len(),
{
    broadcast use vstd::seq_lib::group_to_multiset_ensures;

    if found.len() == 0 {
        reveal(Seq::filter);
        assert(found_configs(found) =~= Seq::<ContainerConfig>::empty());
        assert(found.filter(|o: Option<ContainerConfig>| o is Some) =~= Seq::<Option<ContainerConfig>>::empty());
    } else {
        let init = found.drop_last();
        let x = found.last();
        lemma_found_configs_counts(init);
        assert(init.push(x) =~= found);
        init.lemma_filter_push(x, |o: Option<ContainerConfig>| o is Some);
        match x {
            Some(cx) => {
                assert(found_configs(found) =~= found_configs(init).push(cx));
            },
            None => {
                assert(found_configs(found) =~= found_configs(init));
            },
        }
    }
}

/// A new container's configuration records its name and description as
/// given, and its four directories are the container's directory followed
/// by `/data`, `/config`, `/logs` and `/cache` (or those names alone after a
/// directory that ends in `/`).
pub proof fn lemma_new_config_as_given(root: Seq<char>, name: Seq<char>, description: Seq<char>)
    ensures
        ({
            let c = new_config(root, name, description);
            let dir = container_dir_of(root, name);
            &&& c.0 == name
            &&& c.1 == description
            &&& "data"@.is_suffix_of(c.2) && c.2.len() <= dir.len() + 5
            &&& "config"@.is_suffix_of(c.3) && c.3.len() <= dir.len() + 7
            &&& "logs"@.is_suffix_of(c.4) && c.4.len() <= dir.len() + 5
            &&& "cache"@.is_suffix_of(c.5) && c.5.len() <= dir.len() + 6
        }),
{
    reveal_strlit("data");
    reveal_strlit("config");
    reveal_strlit("logs");
    reveal_strlit("cache");
    let dir = container_dir_of(root, name);
    lemma_join_relative_extends(dir, "data"@);
    lemma_join_relative_extends(dir, "config"@);
    lemma_join_relative_extends(dir, "logs"@);
    lemma_join_relative_extends(dir, "cache"@);
}

} // verus!
