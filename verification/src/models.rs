//! Entity model: variables, environments, projects and the root database
//! aggregate, together with their mathematical models.
//!
//! Each exec type has a view built from two layers of specification:
//! a *record* (`Seq`-based, order-preserving, used by the persistence
//! codec) and a *model* (`Map`-based, order-independent, used by the
//! store contracts).

use vstd::prelude::*;

verus! {

/// Mathematical model of a stored variable: its value, the display
/// hint, and timestamps in integer epoch seconds.
pub struct VarModel {
    pub value: Seq<char>,
    pub encrypted: bool,
    pub created_at: int,
    pub updated_at: int,
}

/// A key/value pair with an encryption display hint and timestamps.
/// The `encrypted` flag is informational only: values are stored and
/// transmitted in plain text.
#[derive(Debug)]
pub struct EnvVariable {
    pub value: String,
    pub encrypted: bool,
    pub created_at: i64,
    pub updated_at: i64,
}

impl View for EnvVariable {
    type V = VarModel;

    open spec fn view(&self) -> VarModel {
        VarModel {
            value: self.value@,
            encrypted: self.encrypted,
            created_at: self.created_at as int,
            updated_at: self.updated_at as int,
        }
    }
}

impl Clone for EnvVariable {
    fn clone(&self) -> (res: Self)
        ensures
            res == *self,
    {
        EnvVariable {
            value: self.value.clone(),
            encrypted: self.encrypted,
            created_at: self.created_at,
            updated_at: self.updated_at,
        }
    }
}

/// A named set of variables, keyed by variable key.
pub type Environment = Vec<(String, EnvVariable)>;

/// Record of an environment: its entries in storage order.
pub type EnvRec = Seq<(Seq<char>, VarModel)>;

/// Record of a project: all fields as mathematical values, with the
/// environments as an ordered association sequence.
pub struct ProjRec {
    pub id: Seq<char>,
    pub name: Seq<char>,
    pub description: Option<Seq<char>>,
    pub environments: Seq<(Seq<char>, EnvRec)>,
    pub created_at: int,
    pub updated_at: int,
}

/// Mathematical model of a project: environments as a map from
/// environment name to a map from variable key to variable.
pub struct ProjModel {
    pub id: Seq<char>,
    pub name: Seq<char>,
    pub description: Option<Seq<char>>,
    pub environments: Map<Seq<char>, Map<Seq<char>, VarModel>>,
    pub created_at: int,
    pub updated_at: int,
}

/// A named top-level container for environments. `id` is assigned once
/// at creation and never changes; `name` is the lookup key and must be
/// unique across all projects.
#[derive(Debug)]
pub struct Project {
    pub id: String,
    pub name: String,
    pub description: Option<String>,
    pub environments: Vec<(String, Environment)>,
    pub created_at: i64,
    pub updated_at: i64,
}

/// Record of an environment sequence of an exec project.
pub open spec fn var_rec(s: Seq<(String, EnvVariable)>) -> EnvRec {
    s.map_values(|p: (String, EnvVariable)| (p.0@, p.1@))
}

/// Record of the environments field of an exec project.
pub open spec fn env_rec(s: Seq<(String, Environment)>) -> Seq<(Seq<char>, EnvRec)> {
    s.map_values(|p: (String, Environment)| (p.0@, var_rec(p.1@)))
}

/// Record of an exec project.
pub open spec fn proj_rec(p: Project) -> ProjRec {
    ProjRec {
        id: p.id@,
        name: p.name@,
        description: p.description.deep_view(),
        environments: env_rec(p.environments@),
        created_at: p.created_at as int,
        updated_at: p.updated_at as int,
    }
}

/// Association sequence to map: later entries win, though under key
/// uniqueness the direction is irrelevant.
pub open spec fn kv_map<V>(s: Seq<(Seq<char>, V)>) -> Map<Seq<char>, V>
    decreases s.len(),
{
    if s.len() == 0 {
        Map::empty()
    } else {
        kv_map(s.drop_last()).insert(s.last().0, s.last().1)
    }
}

/// Whether an association sequence binds a key.
pub open spec fn kv_has<V>(s: Seq<(Seq<char>, V)>, k: Seq<char>) -> bool {
    exists|i: int| 0 <= i < s.len() && s[i].0 == k
}

/// Whether all keys of an association sequence are distinct.
pub open spec fn kv_unique<V>(s: Seq<(Seq<char>, V)>) -> bool {
    forall|i: int, j: int| 0 <= i < j < s.len() ==> s[i].0 != s[j].0
}

/// Model of a project record.
pub open spec fn proj_model(pr: ProjRec) -> ProjModel {
    ProjModel {
        id: pr.id,
        name: pr.name,
        description: pr.description,
        environments: kv_map(
            pr.environments.map_values(|e: (Seq<char>, EnvRec)| (e.0, kv_map(e.1))),
        ),
        created_at: pr.created_at,
        updated_at: pr.updated_at,
    }
}

impl View for Project {
    type V = ProjModel;

    open spec fn view(&self) -> ProjModel {
        proj_model(proj_rec(*self))
    }
}

impl Clone for Project {
    fn clone(&self) -> (res: Self)
        ensures
            proj_rec(res) == proj_rec(*self),
    {
        let res = Project {
            id: self.id.clone(),
            name: self.name.clone(),
            description: match &self.description {
                Some(d) => Some(d.clone()),
                None => None,
            },
            environments: Project::clone_environments(&self.environments),
            created_at: self.created_at,
            updated_at: self.updated_at,
        };
        proof {
            assert(res.description.deep_view() == self.description.deep_view());
        }
        res
    }
}

/// Bookkeeping stored beside the projects in the backing file.
#[derive(Debug)]
pub struct Metadata {
    pub version: String,
    pub last_backup: i64,
}

impl Clone for Metadata {
    fn clone(&self) -> (res: Self)
        ensures
            res.version@ == self.version@,
            res.last_backup == self.last_backup,
    {
        Metadata { version: self.version.clone(), last_backup: self.last_backup }
    }
}

impl Default for Metadata {
    /// Fresh metadata: format version "1.0.0", last backup stamped now.
    fn default() -> (r: Self)
        ensures
            r.version@ == "1.0.0"@,
    {
        Metadata { version: "1.0.0".to_owned(), last_backup: current_timestamp() }
    }
}

/// Record of the database: the project entries keyed by project name,
/// in storage order, and the metadata fields.
pub struct DbRec {
    pub projects: Seq<(Seq<char>, ProjRec)>,
    pub version: Seq<char>,
    pub last_backup: int,
}

/// Mathematical model of the database: a map from project name to
/// project model, and the metadata fields.
pub struct DbModel {
    pub projects: Map<Seq<char>, ProjModel>,
    pub version: Seq<char>,
    pub last_backup: int,
}

/// The root aggregate: the single unit of truth, locking and
/// persistence. Every save serializes the entire aggregate.
#[derive(Debug)]
pub struct Database {
    pub projects: Vec<Project>,
    pub metadata: Metadata,
}

/// The entries of a projects sequence, each keyed by its own name.
pub open spec fn proj_entries(s: Seq<Project>) -> Seq<(Seq<char>, ProjRec)> {
    s.map_values(|p: Project| (p.name@, proj_rec(p)))
}

/// Record of an exec database; each project is keyed by its own name.
pub open spec fn db_rec(db: Database) -> DbRec {
    DbRec {
        projects: proj_entries(db.projects@),
        version: db.metadata.version@,
        last_backup: db.metadata.last_backup as int,
    }
}

/// Model of a database record.
pub open spec fn db_model(r: DbRec) -> DbModel {
    DbModel {
        projects: kv_map(r.projects.map_values(|e: (Seq<char>, ProjRec)| (e.0, proj_model(e.1)))),
        version: r.version,
        last_backup: r.last_backup,
    }
}

impl View for Database {
    type V = DbModel;

    open spec fn view(&self) -> DbModel {
        db_model(db_rec(*self))
    }
}

impl Default for Database {
    /// The empty aggregate used when no backing file exists yet.
    fn default() -> (r: Self)
        ensures
            r@.projects == Map::<Seq<char>, ProjModel>::empty(),
            r@.version == "1.0.0"@,
            r.wf(),
    {
        let r = Database { projects: Vec::new(), metadata: Metadata::default() };
        proof {
            assert(db_rec(r).projects =~= Seq::empty());
            assert(r@.projects =~= Map::<Seq<char>, ProjModel>::empty());
        }
        r
    }
}

/// Well-formedness of a project record: environment names are unique
/// and each environment's variable keys are unique.
pub open spec fn proj_rec_wf(pr: ProjRec) -> bool {
    &&& kv_unique(pr.environments)
    &&& forall|i: int|
        0 <= i < pr.environments.len() ==> kv_unique(#[trigger] pr.environments[i].1)
}

/// Well-formedness of a database record: project names are unique,
/// each entry's key is the project's own name, and every project
/// record is well-formed.
pub open spec fn db_rec_wf(r: DbRec) -> bool {
    &&& kv_unique(r.projects)
    &&& forall|i: int|
        0 <= i < r.projects.len() ==> (#[trigger] r.projects[i]).1.name == r.projects[i].0
    &&& forall|i: int| 0 <= i < r.projects.len() ==> proj_rec_wf((#[trigger] r.projects[i]).1)
}

impl Database {
    /// The invariant every store operation preserves: no two projects
    /// share a name, and all nested keys are unique.
    pub open spec fn wf(&self) -> bool {
        db_rec_wf(db_rec(*self))
    }
}

/// A bound key is exactly a key in the map built from the sequence.
pub proof fn lemma_kv_map_dom<V>(s: Seq<(Seq<char>, V)>)
    ensures
        forall|k: Seq<char>| #[trigger] kv_map(s).contains_key(k) <==> kv_has(s, k),
    decreases s.len(),
{
    if s.len() > 0 {
        let t = s.drop_last();
        lemma_kv_map_dom(t);
        assert forall|k: Seq<char>| #[trigger] kv_map(s).contains_key(k) <==> kv_has(s, k) by {
            if kv_map(s).contains_key(k) {
                if k == s.last().0 {
                    assert(s[s.len() - 1].0 == k);
                } else {
                    assert(kv_map(t).contains_key(k));
                    assert(kv_has(t, k));
                    let i = choose|i: int| 0 <= i < t.len() && t[i].0 == k;
                    assert(t[i] == s[i]);
                    assert(s[i].0 == k);
                }
            }
            if kv_has(s, k) {
                let i = choose|i: int| 0 <= i < s.len() && s[i].0 == k;
                if i < s.len() - 1 {
                    assert(t[i] == s[i]);
                    assert(t[i].0 == k);
                    assert(kv_has(t, k));
                    assert(kv_map(t).contains_key(k));
                } else {
                    assert(s.last().0 == k);
                }
            }
        }
    }
}

/// Under unique keys, the map binds each entry's key to its value.
pub proof fn lemma_kv_map_index<V>(s: Seq<(Seq<char>, V)>, i: int)
    requires
        kv_unique(s),
        0 <= i < s.len(),
    ensures
        kv_map(s).contains_key(s[i].0),
        kv_map(s)[s[i].0] == s[i].1,
    decreases s.len(),
{
    let t = s.drop_last();
    if i < s.len() - 1 {
        assert(kv_unique(t)) by {
            assert(forall|x: int, y: int|
                0 <= x < y < t.len() ==> s[x].0 != s[y].0 && t[x] == s[x] && t[y] == s[y]);
        }
        lemma_kv_map_index(t, i);
        assert(s.last().0 != s[i].0);
    }
}

/// Appending an entry inserts its binding.
pub proof fn lemma_kv_map_push<V>(s: Seq<(Seq<char>, V)>, k: Seq<char>, v: V)
    ensures
        kv_map(s.push((k, v))) == kv_map(s).insert(k, v),
{
    assert(s.push((k, v)).drop_last() =~= s);
    assert(s.push((k, v)).last() == (k, v));
}

/// Removing an entry removes its binding.
pub proof fn lemma_kv_map_remove<V>(s: Seq<(Seq<char>, V)>, i: int)
    requires
        kv_unique(s),
        0 <= i < s.len(),
    ensures
        kv_map(s.remove(i)) == kv_map(s).remove(s[i].0),
    decreases s.len(),
{
    let t = s.drop_last();
    if i == s.len() - 1 {
        assert(s.remove(i) =~= t);
        lemma_kv_map_dom(t);
        assert(!kv_has(t, s[i].0)) by {
            assert(forall|x: int| 0 <= x < t.len() ==> t[x] == s[x]);
        }
        assert(kv_map(t) =~= kv_map(t).insert(s.last().0, s.last().1).remove(s[i].0));
    } else {
        assert(kv_unique(t)) by {
            assert(forall|x: int, y: int|
                0 <= x < y < t.len() ==> s[x].0 != s[y].0 && t[x] == s[x] && t[y] == s[y]);
        }
        assert(s.remove(i).drop_last() =~= t.remove(i));
        assert(s.remove(i).last() == s.last());
        lemma_kv_map_remove(t, i);
        assert(s.last().0 != s[i].0);
        assert(kv_map(t).remove(s[i].0).insert(s.last().0, s.last().1) =~= kv_map(t).insert(
            s.last().0,
            s.last().1,
        ).remove(s[i].0));
    }
}

/// Removing an entry preserves key uniqueness.
pub proof fn lemma_kv_unique_remove_entry<V>(s: Seq<(Seq<char>, V)>, i: int)
    requires
        kv_unique(s),
        0 <= i < s.len(),
    ensures
        kv_unique(s.remove(i)),
{
    let t = s.remove(i);
    assert forall|x: int, y: int| 0 <= x < y < t.len() implies t[x].0 != t[y].0 by {
        let x2: int = if x < i {
            x
        } else {
            x + 1
        };
        let y2: int = if y < i {
            y
        } else {
            y + 1
        };
        assert(t[x] == s[x2]);
        assert(t[y] == s[y2]);
    }
}

/// Replacing the one entry that binds `key` acts as an insert on the
/// map and preserves key uniqueness.
pub proof fn lemma_kv_set<V>(s: Seq<(Seq<char>, V)>, k: int, key: Seq<char>, v: V)
    requires
        kv_unique(s),
        0 <= k < s.len(),
        s[k].0 == key,
    ensures
        kv_map(s.remove(k).push((key, v))) == kv_map(s).insert(key, v),
        kv_unique(s.remove(k).push((key, v))),
{
    lemma_kv_map_remove(s, k);
    lemma_kv_map_push(s.remove(k), key, v);
    assert(kv_map(s).remove(key).insert(key, v) =~= kv_map(s).insert(key, v));
    lemma_kv_unique_remove_entry(s, k);
    let t = s.remove(k);
    assert forall|x: int| 0 <= x < t.len() implies t[x].0 != key by {
        let x2: int = if x < k {
            x
        } else {
            x + 1
        };
        assert(t[x] == s[x2]);
    }
    let u = t.push((key, v));
    assert forall|x: int, y: int| 0 <= x < y < u.len() implies u[x].0 != u[y].0 by {
        if y < u.len() - 1 {
            assert(u[x] == t[x]);
            assert(u[y] == t[y]);
        } else {
            assert(u[x] == t[x]);
        }
    }
}

/// Appending an entry under a fresh key acts as an insert on the map
/// and preserves key uniqueness.
pub proof fn lemma_kv_add<V>(s: Seq<(Seq<char>, V)>, key: Seq<char>, v: V)
    requires
        kv_unique(s),
        forall|i: int| 0 <= i < s.len() ==> (#[trigger] s[i]).0 != key,
    ensures
        kv_map(s.push((key, v))) == kv_map(s).insert(key, v),
        kv_unique(s.push((key, v))),
{
    lemma_kv_map_push(s, key, v);
    let u = s.push((key, v));
    assert forall|x: int, y: int| 0 <= x < y < u.len() implies u[x].0 != u[y].0 by {
        if y < u.len() - 1 {
            assert(u[x] == s[x]);
            assert(u[y] == s[y]);
        } else {
            assert(u[x] == s[x]);
        }
    }
}

/// Relies on str's PartialEq: two string slices are equal exactly when
/// their character sequences are equal.
#[verifier::external_body]
pub(crate) fn str_eq(a: &str, b: &str) -> (r: bool)
    ensures
        r == (a@ == b@),
{
    a == b
}

/// Relies on chrono::Utc::now and DateTime::timestamp: the current
/// wall-clock time as whole epoch seconds. Nothing is promised of the
/// result; the clock is not assumed monotonic.
#[verifier::external_body]
pub(crate) fn current_timestamp() -> i64 {
    chrono::Utc::now().timestamp()
}

/// Relies on uuid::Uuid::new_v4 and its Display form: a freshly drawn
/// random identifier rendered in the 36-character hyphenated form. The
/// value is random, so only its length is promised.
#[verifier::external_body]
pub(crate) fn fresh_project_id() -> (r: String)
    ensures
        r@.len() == 36,
{
    uuid::Uuid::new_v4().to_string()
}

/// Request body for creating a project.
pub struct CreateProjectRequest {
    pub name: String,
    pub description: Option<String>,
}

/// Request body for updating a project.
pub struct UpdateProjectRequest {
    pub name: Option<String>,
    pub description: Option<String>,
}

/// Request body for writing a variable.
pub struct SetVariableRequest {
    pub value: String,
    pub encrypted: Option<bool>,
}

/// Query parameters of the export endpoint.
pub struct ExportQuery {
    pub env: Option<String>,
    pub format: Option<String>,
}

impl EnvVariable {
    /// The value as interactive display shows it: masked when the
    /// encryption hint is set, since masking is a display concern
    /// only.
    pub fn display_value(&self) -> (r: String)
        ensures
            self.encrypted ==> r@ == "***"@,
            !self.encrypted ==> r@ == self@.value,
    {
        if self.encrypted {
            "***".to_owned()
        } else {
            self.value.clone()
        }
    }

    /// Construct a variable with equal creation and update timestamps.
    pub fn new(value: String, encrypted: bool) -> (r: EnvVariable)
        ensures
            r@.value == value@,
            r@.encrypted == encrypted,
            r@.created_at == r@.updated_at,
    {
        let now = current_timestamp();
        EnvVariable { value, encrypted, created_at: now, updated_at: now }
    }
}

impl Project {
    /// Construct a project with a fresh id, no environments, and equal
    /// creation and update timestamps.
    pub fn new(name: String, description: Option<String>) -> (r: Project)
        ensures
            r@.name == name@,
            r@.description == description.deep_view(),
            r@.environments == Map::<Seq<char>, Map<Seq<char>, VarModel>>::empty(),
            r@.created_at == r@.updated_at,
            proj_rec_wf(proj_rec(r)),
    {
        let now = current_timestamp();
        let r = Project {
            id: fresh_project_id(),
            name,
            description,
            environments: Vec::new(),
            created_at: now,
            updated_at: now,
        };
        proof {
            assert(env_rec(r.environments@) =~= Seq::empty());
            assert(r@.environments =~= Map::<Seq<char>, Map<Seq<char>, VarModel>>::empty());
        }
        r
    }

    /// Copy an environment; the copy's entries equal the original's.
    pub fn clone_environment(e: &Environment) -> (r: Environment)
        ensures
            r@ == e@,
    {
        let mut r: Environment = Vec::new();
        let mut i: usize = 0;
        while i < e.len()
            invariant
                i <= e@.len(),
                r@ == e@.take(i as int),
            decreases e@.len() - i,
        {
            r.push((e[i].0.clone(), e[i].1.clone()));
            proof {
                assert(e@.take(i as int).push(e@[i as int]) =~= e@.take(i + 1 as int));
            }
            i = i + 1;
        }
        proof {
            assert(e@.take(e@.len() as int) =~= e@);
        }
        r
    }

    /// Copy the environments of a project; the record is preserved.
    pub fn clone_environments(v: &Vec<(String, Environment)>) -> (r: Vec<(String, Environment)>)
        ensures
            env_rec(r@) == env_rec(v@),
            r@.len() == v@.len(),
            forall|i: int| 0 <= i < v@.len() ==> (#[trigger] r@[i]).0 == v@[i].0,
            forall|i: int| 0 <= i < v@.len() ==> (#[trigger] r@[i]).1@ == v@[i].1@,
    {
        let mut r: Vec<(String, Environment)> = Vec::new();
        let mut i: usize = 0;
        while i < v.len()
            invariant
                i <= v@.len(),
                r@.len() == i,
                forall|j: int| 0 <= j < i ==> (#[trigger] r@[j]).0 == v@[j].0,
                forall|j: int| 0 <= j < i ==> (#[trigger] r@[j]).1@ == v@[j].1@,
            decreases v@.len() - i,
        {
            r.push((v[i].0.clone(), Project::clone_environment(&v[i].1)));
            i = i + 1;
        }
        proof {
            assert(env_rec(r@) =~= env_rec(v@));
        }
        r
    }

    /// Refresh the update timestamp; every other field is unchanged.
    pub fn update_timestamp(&mut self)
        ensures
            final(self).id == old(self).id,
            final(self).name == old(self).name,
            final(self).description == old(self).description,
            final(self).environments == old(self).environments,
            final(self).created_at == old(self).created_at,
    {
        self.updated_at = current_timestamp();
    }
}

} // verus!
