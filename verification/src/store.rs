//! The store: sole authority for reading and mutating the database
//! aggregate. Every operation is specified against the map model; the
//! caller serializes concurrent access and persists the aggregate
//! after each mutation.

use vstd::prelude::*;

use crate::error::AppError;
use crate::models::{
    db_rec, db_rec_wf, kv_has, kv_map, kv_unique, lemma_kv_add, lemma_kv_map_dom,
    lemma_kv_map_index, lemma_kv_map_push, lemma_kv_map_remove, lemma_kv_set,
    lemma_kv_unique_remove_entry, env_rec, proj_model, proj_rec, proj_rec_wf, str_eq, var_rec, Database,
    DbModel, DbRec, EnvRec, EnvVariable, Environment, ProjModel, ProjRec, Project, VarModel,
};

verus! {

/// The project entries of a record, with each project abstracted to
/// its model.
pub open spec fn pm_entries(r: DbRec) -> Seq<(Seq<char>, ProjModel)> {
    r.projects.map_values(|e: (Seq<char>, ProjRec)| (e.0, proj_model(e.1)))
}

/// Look a project up by name.
pub open spec fn spec_get_project(m: DbModel, name: Seq<char>) -> Option<ProjModel> {
    if m.projects.contains_key(name) {
        Some(m.projects[name])
    } else {
        None
    }
}

/// Look an environment up by project name and environment name.
pub open spec fn spec_get_environment(m: DbModel, pn: Seq<char>, env: Seq<char>) -> Option<
    Map<Seq<char>, VarModel>,
> {
    match spec_get_project(m, pn) {
        Some(p) => if p.environments.contains_key(env) {
            Some(p.environments[env])
        } else {
            None
        },
        None => None,
    }
}

/// Look a variable up by project name, environment name and key.
pub open spec fn spec_get_variable(
    m: DbModel,
    pn: Seq<char>,
    env: Seq<char>,
    key: Seq<char>,
) -> Option<VarModel> {
    match spec_get_environment(m, pn, env) {
        Some(e) => if e.contains_key(key) {
            Some(e[key])
        } else {
            None
        },
        None => None,
    }
}

/// Insert a freshly created project under its name.
pub open spec fn spec_create_project(m: DbModel, name: Seq<char>, p: ProjModel) -> DbModel {
    DbModel { projects: m.projects.insert(name, p), ..m }
}

/// Remove a project and all nested data.
pub open spec fn spec_delete_project(m: DbModel, name: Seq<char>) -> DbModel {
    DbModel { projects: m.projects.remove(name), ..m }
}

/// Replace the project stored under `name` with `p`, stored under
/// `target`: a rename is a move of the old entry in one logical step.
pub open spec fn spec_update_project(
    m: DbModel,
    name: Seq<char>,
    target: Seq<char>,
    p: ProjModel,
) -> DbModel {
    DbModel { projects: m.projects.remove(name).insert(target, p), ..m }
}

/// Write a variable: the environment is created if absent, the key is
/// inserted or overwritten, and the project timestamp becomes `ts`.
pub open spec fn spec_set_variable(
    m: DbModel,
    pn: Seq<char>,
    env: Seq<char>,
    key: Seq<char>,
    v: VarModel,
    ts: int,
) -> DbModel {
    let p = m.projects[pn];
    let e = if p.environments.contains_key(env) {
        p.environments[env]
    } else {
        Map::<Seq<char>, VarModel>::empty()
    };
    let p2 = ProjModel {
        environments: p.environments.insert(env, e.insert(key, v)),
        updated_at: ts,
        ..p
    };
    DbModel { projects: m.projects.insert(pn, p2), ..m }
}

/// Remove a variable; the project timestamp becomes `ts`.
pub open spec fn spec_delete_variable(
    m: DbModel,
    pn: Seq<char>,
    env: Seq<char>,
    key: Seq<char>,
    ts: int,
) -> DbModel {
    let p = m.projects[pn];
    let e = p.environments[env];
    let p2 = ProjModel {
        environments: p.environments.insert(env, e.remove(key)),
        updated_at: ts,
        ..p
    };
    DbModel { projects: m.projects.insert(pn, p2), ..m }
}

/// Key uniqueness carries from the record entries to the model entries.
proof fn lemma_pm_unique(r: DbRec)
    requires
        kv_unique(r.projects),
    ensures
        kv_unique(pm_entries(r)),
{
    assert(forall|i: int|
        0 <= i < r.projects.len() ==> (#[trigger] pm_entries(r)[i]).0 == r.projects[i].0);
}

/// A stored project is bound to its name in the model.
proof fn lemma_db_lookup(db: Database, i: int)
    requires
        db.wf(),
        0 <= i < db.projects@.len(),
    ensures
        db@.projects.contains_key(db.projects@[i].name@),
        db@.projects[db.projects@[i].name@] == db.projects@[i]@,
{
    let r = db_rec(db);
    assert(r.projects[i] == (db.projects@[i].name@, proj_rec(db.projects@[i])));
    lemma_pm_unique(r);
    lemma_kv_map_index(pm_entries(r), i);
    assert(pm_entries(r)[i] == (r.projects[i].0, proj_model(r.projects[i].1)));
}

/// A name that no stored project carries is not in the model.
proof fn lemma_db_absent(db: Database, name: Seq<char>)
    requires
        forall|i: int| 0 <= i < db.projects@.len() ==> (#[trigger] db.projects@[i]).name@ != name,
    ensures
        !db@.projects.contains_key(name),
{
    let r = db_rec(db);
    lemma_kv_map_dom(pm_entries(r));
    assert(forall|i: int|
        0 <= i < r.projects.len() ==> (#[trigger] pm_entries(r)[i]).0 == db.projects@[i].name@);
    assert(!kv_has(pm_entries(r), name));
}

/// Removing a project entry preserves well-formedness of the record.
proof fn lemma_db_wf_remove(r: DbRec, i: int)
    requires
        db_rec_wf(r),
        0 <= i < r.projects.len(),
    ensures
        db_rec_wf(DbRec { projects: r.projects.remove(i), ..r }),
{
    let t = r.projects.remove(i);
    lemma_kv_unique_remove_entry(r.projects, i);
    assert forall|j: int| 0 <= j < t.len() implies (#[trigger] t[j]).1.name == t[j].0
        && proj_rec_wf(t[j].1) by {
        let j2: int = if j < i {
            j
        } else {
            j + 1
        };
        assert(t[j] == r.projects[j2]);
    }
}

/// Appending a well-formed project under a fresh name preserves
/// well-formedness of the record.
proof fn lemma_db_wf_push(r: DbRec, p: ProjRec)
    requires
        db_rec_wf(r),
        proj_rec_wf(p),
        forall|i: int| 0 <= i < r.projects.len() ==> (#[trigger] r.projects[i]).0 != p.name,
    ensures
        db_rec_wf(DbRec { projects: r.projects.push((p.name, p)), ..r }),
{
    let t = r.projects.push((p.name, p));
    assert forall|x: int, y: int| 0 <= x < y < t.len() implies t[x].0 != t[y].0 by {
        if y == t.len() - 1 {
            assert(t[x] == r.projects[x]);
        } else {
            assert(t[x] == r.projects[x]);
            assert(t[y] == r.projects[y]);
        }
    }
}

/// The environment entries of a project record, abstracted to maps.
pub open spec fn em_entries(pr: ProjRec) -> Seq<(Seq<char>, Map<Seq<char>, VarModel>)> {
    pr.environments.map_values(|e: (Seq<char>, EnvRec)| (e.0, kv_map(e.1)))
}

/// The model of an environments sequence as stored in a project.
pub open spec fn envs_model(s: Seq<(String, Environment)>) -> Map<
    Seq<char>,
    Map<Seq<char>, VarModel>,
> {
    kv_map(env_rec(s).map_values(|e: (Seq<char>, EnvRec)| (e.0, kv_map(e.1))))
}

/// Key uniqueness carries from a project's environment entries to the
/// abstracted entries.
proof fn lemma_em_unique(pr: ProjRec)
    requires
        kv_unique(pr.environments),
    ensures
        kv_unique(em_entries(pr)),
{
    assert(forall|i: int|
        0 <= i < pr.environments.len() ==> (#[trigger] em_entries(pr)[i]).0
            == pr.environments[i].0);
}

/// A stored environment is bound to its name in the project model.
proof fn lemma_proj_env_lookup(p: Project, j: int)
    requires
        proj_rec_wf(proj_rec(p)),
        0 <= j < p.environments@.len(),
    ensures
        p@.environments.contains_key(p.environments@[j].0@),
        p@.environments[p.environments@[j].0@] == kv_map(var_rec(p.environments@[j].1@)),
{
    let pr = proj_rec(p);
    assert(pr.environments[j] == (p.environments@[j].0@, var_rec(p.environments@[j].1@)));
    lemma_em_unique(pr);
    lemma_kv_map_index(em_entries(pr), j);
    assert(em_entries(pr)[j] == (pr.environments[j].0, kv_map(pr.environments[j].1)));
}

/// A name that no stored environment carries is not in the project model.
proof fn lemma_proj_env_absent(p: Project, name: Seq<char>)
    requires
        forall|j: int|
            0 <= j < p.environments@.len() ==> (#[trigger] p.environments@[j]).0@ != name,
    ensures
        !p@.environments.contains_key(name),
{
    let pr = proj_rec(p);
    lemma_kv_map_dom(em_entries(pr));
    assert(forall|j: int|
        0 <= j < pr.environments.len() ==> (#[trigger] em_entries(pr)[j]).0
            == p.environments@[j].0@);
    assert(!kv_has(em_entries(pr), name));
}

/// A stored variable is bound to its key in the environment map.
proof fn lemma_env_var_lookup(s: Seq<(String, EnvVariable)>, k: int)
    requires
        kv_unique(var_rec(s)),
        0 <= k < s.len(),
    ensures
        kv_map(var_rec(s)).contains_key(s[k].0@),
        kv_map(var_rec(s))[s[k].0@] == s[k].1@,
{
    assert(var_rec(s)[k] == (s[k].0@, s[k].1@));
    lemma_kv_map_index(var_rec(s), k);
}

/// A key that no stored variable carries is not in the environment map.
proof fn lemma_env_var_absent(s: Seq<(String, EnvVariable)>, key: Seq<char>)
    requires
        forall|k: int| 0 <= k < s.len() ==> (#[trigger] s[k]).0@ != key,
    ensures
        !kv_map(var_rec(s)).contains_key(key),
{
    lemma_kv_map_dom(var_rec(s));
    assert(forall|k: int| 0 <= k < s.len() ==> (#[trigger] var_rec(s)[k]).0 == s[k].0@);
    assert(!kv_has(var_rec(s), key));
}

/// Taking the project at index `i` out and appending `p` keeps the
/// aggregate well-formed and acts on the model as a keyed move.
proof fn lemma_db_replace(db0: Database, db1: Database, i: int, p: Project)
    requires
        db0.wf(),
        0 <= i < db0.projects@.len(),
        db1.projects@ == db0.projects@.remove(i).push(p),
        db1.metadata == db0.metadata,
        proj_rec_wf(proj_rec(p)),
        forall|j: int|
            0 <= j < db0.projects@.len() && j != i ==> (#[trigger] db0.projects@[j]).name@
                != p.name@,
    ensures
        db1.wf(),
        db1@ == (DbModel {
            projects: db0@.projects.remove(db0.projects@[i].name@).insert(p.name@, p@),
            ..db0@
        }),
{
    let r0 = db_rec(db0);
    let r1 = db_rec(db1);
    let rmid = DbRec { projects: r0.projects.remove(i), ..r0 };
    assert(r1.projects =~= r0.projects.remove(i).push((p.name@, proj_rec(p))));
    assert(pm_entries(r1) =~= pm_entries(r0).remove(i).push((p.name@, p@)));
    lemma_pm_unique(r0);
    lemma_kv_map_remove(pm_entries(r0), i);
    lemma_kv_map_push(pm_entries(r0).remove(i), p.name@, p@);
    assert(pm_entries(r0)[i].0 == db0.projects@[i].name@);
    lemma_db_wf_remove(r0, i);
    assert forall|j: int| 0 <= j < rmid.projects.len() implies (#[trigger] rmid.projects[j]).0
        != p.name@ by {
        let j2: int = if j < i {
            j
        } else {
            j + 1
        };
        assert(rmid.projects[j] == r0.projects[j2]);
        assert(r0.projects[j2].0 == db0.projects@[j2].name@);
    }
    lemma_db_wf_push(rmid, proj_rec(p));
    assert(r1 == DbRec { projects: rmid.projects.push((proj_rec(p).name, proj_rec(p))), ..rmid });
}

/// Taking the environment at index `j` out of a project and appending
/// it back under the same name with new contents keeps the project
/// well-formed and acts on its model as an insert.
proof fn lemma_proj_replace_env(p0: Project, p1: Project, j: int, evec: Environment)
    requires
        proj_rec_wf(proj_rec(p0)),
        0 <= j < p0.environments@.len(),
        p1.environments@ == p0.environments@.remove(j).push((p0.environments@[j].0, evec)),
        kv_unique(var_rec(evec@)),
        p1.id == p0.id,
        p1.name == p0.name,
        p1.description == p0.description,
        p1.created_at == p0.created_at,
    ensures
        proj_rec_wf(proj_rec(p1)),
        p1@ == (ProjModel {
            environments: p0@.environments.insert(
                p0.environments@[j].0@,
                kv_map(var_rec(evec@)),
            ),
            updated_at: p1.updated_at as int,
            ..p0@
        }),
{
    let e0 = proj_rec(p0).environments;
    let e1 = proj_rec(p1).environments;
    let key = p0.environments@[j].0@;
    assert(e0[j] == (key, var_rec(p0.environments@[j].1@)));
    assert(e1 =~= e0.remove(j).push((key, var_rec(evec@))));
    lemma_kv_set(e0, j, key, var_rec(evec@));
    assert(em_entries(proj_rec(p1)) =~= em_entries(proj_rec(p0)).remove(j).push(
        (key, kv_map(var_rec(evec@))),
    ));
    lemma_em_unique(proj_rec(p0));
    assert(em_entries(proj_rec(p0))[j].0 == key);
    lemma_kv_set(em_entries(proj_rec(p0)), j, key, kv_map(var_rec(evec@)));
    assert forall|x: int| 0 <= x < e1.len() implies kv_unique(#[trigger] e1[x].1) by {
        if x < e1.len() - 1 {
            let x2: int = if x < j {
                x
            } else {
                x + 1
            };
            assert(e1[x] == e0[x2]);
        }
    }
}

/// Appending a fresh environment to a project keeps it well-formed and
/// acts on its model as an insert.
proof fn lemma_proj_push_env(p0: Project, p1: Project, name: String, evec: Environment)
    requires
        proj_rec_wf(proj_rec(p0)),
        forall|j: int|
            0 <= j < p0.environments@.len() ==> (#[trigger] p0.environments@[j]).0@ != name@,
        p1.environments@ == p0.environments@.push((name, evec)),
        kv_unique(var_rec(evec@)),
        p1.id == p0.id,
        p1.name == p0.name,
        p1.description == p0.description,
        p1.created_at == p0.created_at,
    ensures
        proj_rec_wf(proj_rec(p1)),
        p1@ == (ProjModel {
            environments: p0@.environments.insert(name@, kv_map(var_rec(evec@))),
            updated_at: p1.updated_at as int,
            ..p0@
        }),
{
    let e0 = proj_rec(p0).environments;
    let e1 = proj_rec(p1).environments;
    assert(e1 =~= e0.push((name@, var_rec(evec@))));
    assert(forall|x: int| 0 <= x < e0.len() ==> (#[trigger] e0[x]).0 == p0.environments@[x].0@);
    lemma_kv_add(e0, name@, var_rec(evec@));
    assert(em_entries(proj_rec(p1)) =~= em_entries(proj_rec(p0)).push(
        (name@, kv_map(var_rec(evec@))),
    ));
    lemma_em_unique(proj_rec(p0));
    assert(forall|x: int|
        0 <= x < e0.len() ==> (#[trigger] em_entries(proj_rec(p0))[x]).0 == e0[x].0);
    lemma_kv_add(em_entries(proj_rec(p0)), name@, kv_map(var_rec(evec@)));
    assert forall|x: int| 0 <= x < e1.len() implies kv_unique(#[trigger] e1[x].1) by {
        if x < e1.len() - 1 {
            assert(e1[x] == e0[x]);
        }
    }
}

/// The name a project carries after an update.
pub open spec fn rename_target(name: Seq<char>, new_name: Option<String>) -> Seq<char> {
    match new_name {
        Some(n2) => n2@,
        None => name,
    }
}

/// Find the index of the environment with the given name.
fn find_env(v: &Vec<(String, Environment)>, name: &str) -> (r: Option<usize>)
    ensures
        match r {
            Some(j) => 0 <= j < v@.len() && v@[j as int].0@ == name@,
            None => forall|j: int| 0 <= j < v@.len() ==> (#[trigger] v@[j]).0@ != name@,
        },
{
    let mut j: usize = 0;
    while j < v.len()
        invariant
            j <= v@.len(),
            forall|x: int| 0 <= x < j ==> (#[trigger] v@[x]).0@ != name@,
        decreases v@.len() - j,
    {
        if str_eq(v[j].0.as_str(), name) {
            return Some(j);
        }
        j = j + 1;
    }
    None
}

/// Find the index of the variable with the given key.
fn find_var(v: &Environment, key: &str) -> (r: Option<usize>)
    ensures
        match r {
            Some(k) => 0 <= k < v@.len() && v@[k as int].0@ == key@,
            None => forall|k: int| 0 <= k < v@.len() ==> (#[trigger] v@[k]).0@ != key@,
        },
{
    let mut k: usize = 0;
    while k < v.len()
        invariant
            k <= v@.len(),
            forall|x: int| 0 <= x < k ==> (#[trigger] v@[x]).0@ != key@,
        decreases v@.len() - k,
    {
        if str_eq(v[k].0.as_str(), key) {
            return Some(k);
        }
        k = k + 1;
    }
    None
}

/// Find the index of the project with the given name.
fn find_project(v: &Vec<Project>, name: &str) -> (r: Option<usize>)
    ensures
        match r {
            Some(i) => 0 <= i < v@.len() && v@[i as int].name@ == name@,
            None => forall|i: int| 0 <= i < v@.len() ==> (#[trigger] v@[i]).name@ != name@,
        },
{
    let mut i: usize = 0;
    while i < v.len()
        invariant
            i <= v@.len(),
            forall|j: int| 0 <= j < i ==> (#[trigger] v@[j]).name@ != name@,
        decreases v@.len() - i,
    {
        if str_eq(v[i].name.as_str(), name) {
            return Some(i);
        }
        i = i + 1;
    }
    None
}

/// The file-backed store handle. It owns the aggregate; the caller is
/// responsible for serializing access and for writing the text
/// produced after each mutation back to the backing file.
#[derive(Debug)]
pub struct JsonStore {
    db: Database,
}

impl View for JsonStore {
    type V = DbModel;

    closed spec fn view(&self) -> DbModel {
        self.db@
    }
}

impl JsonStore {
    /// The store invariant: the aggregate is well-formed.
    pub closed spec fn wf(&self) -> bool {
        self.db.wf()
    }

    /// The record of the aggregate: its contents in storage order, as
    /// the persistence codec sees them.
    pub closed spec fn rec(&self) -> DbRec {
        db_rec(self.db)
    }

    /// The model is the abstraction of the record, and the invariant
    /// is the record's well-formedness.
    pub proof fn lemma_view_rec(&self)
        ensures
            self@ == crate::models::db_model(self.rec()),
            self.wf() <==> db_rec_wf(self.rec()),
    {
    }

    /// Construct a store: from the backing file's contents when the
    /// file exists, else from the empty default aggregate. A parse
    /// failure is a fatal construction error.
    pub fn new(contents: Option<&str>) -> (r: Result<JsonStore, AppError>)
        ensures
            match r {
                Ok(st) => st.wf() && (match contents {
                    Some(t) => crate::codec::spec_parse_database(t@) == Some(st.rec()),
                    None => st@.projects == Map::<Seq<char>, ProjModel>::empty() && st@.version
                        == "1.0.0"@,
                }),
                Err(e) => (contents matches Some(t) && crate::codec::spec_parse_database(t@)
                    is None) && (e matches AppError::JsonError(m) && m@
                    == "invalid database document"@),
            },
    {
        match contents {
            None => Ok(JsonStore { db: Database::default() }),
            Some(text) => match crate::codec::parse_database(text) {
                Ok(db) => Ok(JsonStore { db }),
                Err(e) => Err(e),
            },
        }
    }

    /// Serialize the aggregate to the text the caller writes back to
    /// the backing file after every mutation.
    pub fn save(&self) -> (text: String)
        ensures
            text@ == crate::codec::render_db_rec(self.rec()),
    {
        crate::codec::render_database(&self.db)
    }

    /// Law: the text this store saves parses back to exactly its
    /// record, so constructing a store from a saved file and saving
    /// again reproduces an equivalent file: the same projects,
    /// environments and variables.
    pub proof fn lemma_save_then_load(&self)
        requires
            self.wf(),
        ensures
            crate::codec::spec_parse_database(crate::codec::render_db_rec(self.rec())) == Some(
                self.rec(),
            ),
    {
        crate::codec::lemma_db_rec_bounded(self.db);
        crate::codec::lemma_round_trip(self.rec());
    }

    /// Create a project under a fresh name; fails with
    /// `ProjectAlreadyExists` when the name is taken, leaving the
    /// aggregate unchanged.
    pub fn create_project(&mut self, name: String, description: Option<String>) -> (r: Result<
        Project,
        AppError,
    >)
        requires
            old(self).wf(),
        ensures
            final(self).wf(),
            match r {
                Ok(p) => !old(self)@.projects.contains_key(name@) && p@.name == name@
                    && p@.description == description.deep_view() && p@.environments == Map::<
                    Seq<char>,
                    Map<Seq<char>, VarModel>,
                >::empty() && p@.created_at == p@.updated_at && final(self)@ == spec_create_project(
                    old(self)@,
                    name@,
                    p@,
                ),
                Err(e) => old(self)@.projects.contains_key(name@) && (e matches
                    AppError::ProjectAlreadyExists(n) && n@ == name@) && *final(self) == *old(self),
            },
    {
        match find_project(&self.db.projects, name.as_str()) {
            Some(i) => {
                proof {
                    lemma_db_lookup(self.db, i as int);
                }
                Err(AppError::ProjectAlreadyExists(name))
            },
            None => {
                proof {
                    lemma_db_absent(self.db, name@);
                }
                let p = Project::new(name, description);
                let ret = p.clone();
                let ghost db0 = self.db;
                let ghost pg = p;
                self.db.projects.push(p);
                proof {
                    let r0 = db_rec(db0);
                    let r1 = db_rec(self.db);
                    assert(r1.projects =~= r0.projects.push((pg.name@, proj_rec(pg))));
                    assert(pm_entries(r1) =~= pm_entries(r0).push((pg.name@, pg@)));
                    lemma_kv_map_push(pm_entries(r0), pg.name@, pg@);
                    assert(forall|i: int|
                        0 <= i < r0.projects.len() ==> (#[trigger] r0.projects[i]).0 == db0.projects@[i].name@);
                    lemma_db_wf_push(r0, proj_rec(pg));
                    assert(r1 == DbRec { projects: r0.projects.push((proj_rec(pg).name, proj_rec(pg))), ..r0 });
                    assert(ret@ == pg@);
                }
                Ok(ret)
            },
        }
    }

    /// Read a copy of the named project; fails with `ProjectNotFound`
    /// exactly when the name is absent.
    pub fn get_project(&self, name: &str) -> (r: Result<Project, AppError>)
        requires
            self.wf(),
        ensures
            match r {
                Ok(p) => spec_get_project(self@, name@) == Some(p@),
                Err(e) => spec_get_project(self@, name@) is None && (e matches
                    AppError::ProjectNotFound(n) && n@ == name@),
            },
    {
        match find_project(&self.db.projects, name) {
            Some(i) => {
                proof {
                    lemma_db_lookup(self.db, i as int);
                }
                Ok(self.db.projects[i].clone())
            },
            None => {
                proof {
                    lemma_db_absent(self.db, name@);
                }
                Err(AppError::ProjectNotFound(name.to_owned()))
            },
        }
    }

    /// Snapshot of all projects. The order is not specified; each
    /// stored project appears exactly once under its name.
    pub fn list_projects(&self) -> (r: Result<Vec<Project>, AppError>)
        requires
            self.wf(),
        ensures
            r matches Ok(v) && (forall|i: int|
                0 <= i < v@.len() ==> spec_get_project(self@, (#[trigger] v@[i])@.name) == Some(
                    v@[i]@,
                )) && (forall|k: Seq<char>|
                #[trigger] self@.projects.contains_key(k) ==> exists|i: int|
                    0 <= i < v@.len() && (#[trigger] v@[i])@.name == k) && (forall|i: int, j: int|
                0 <= i < j < v@.len() ==> v@[i]@.name != v@[j]@.name),
    {
        let mut out: Vec<Project> = Vec::new();
        let mut i: usize = 0;
        while i < self.db.projects.len()
            invariant
                i <= self.db.projects@.len(),
                out@.len() == i,
                forall|j: int|
                    0 <= j < i ==> proj_rec(#[trigger] out@[j]) == proj_rec(
                        self.db.projects@[j],
                    ),
            decreases self.db.projects@.len() - i,
        {
            out.push(self.db.projects[i].clone());
            i = i + 1;
        }
        proof {
            let r = db_rec(self.db);
            assert forall|i2: int| 0 <= i2 < out@.len() implies spec_get_project(
                self@,
                (#[trigger] out@[i2])@.name,
            ) == Some(out@[i2]@) by {
                lemma_db_lookup(self.db, i2);
                assert(out@[i2]@ == self.db.projects@[i2]@);
            }
            lemma_kv_map_dom(pm_entries(r));
            assert forall|k: Seq<char>| #[trigger]
                self@.projects.contains_key(k) implies exists|i2: int|
                0 <= i2 < out@.len() && (#[trigger] out@[i2])@.name == k by {
                assert(kv_has(pm_entries(r), k));
                let w = choose|w: int| 0 <= w < pm_entries(r).len() && pm_entries(r)[w].0 == k;
                assert(r.projects[w].0 == k);
                assert(out@[w]@.name == k);
            }
            assert forall|i2: int, j2: int| 0 <= i2 < j2 < out@.len() implies out@[i2]@.name
                != out@[j2]@.name by {
                assert(r.projects[i2].0 != r.projects[j2].0);
                assert(out@[i2]@.name == r.projects[i2].0);
                assert(out@[j2]@.name == r.projects[j2].0);
            }
        }
        Ok(out)
    }

    /// Delete a project and all nested data; fails with
    /// `ProjectNotFound` exactly when the name is absent.
    pub fn delete_project(&mut self, name: &str) -> (r: Result<(), AppError>)
        requires
            old(self).wf(),
        ensures
            final(self).wf(),
            match r {
                Ok(_) => old(self)@.projects.contains_key(name@) && final(self)@
                    == spec_delete_project(old(self)@, name@),
                Err(e) => !old(self)@.projects.contains_key(name@) && (e matches
                    AppError::ProjectNotFound(n) && n@ == name@) && *final(self) == *old(self),
            },
    {
        match find_project(&self.db.projects, name) {
            None => {
                proof {
                    lemma_db_absent(self.db, name@);
                }
                Err(AppError::ProjectNotFound(name.to_owned()))
            },
            Some(i) => {
                proof {
                    lemma_db_lookup(self.db, i as int);
                }
                let ghost db0 = self.db;
                let _removed = self.db.projects.remove(i);
                proof {
                    let r0 = db_rec(db0);
                    let r1 = db_rec(self.db);
                    assert(r1.projects =~= r0.projects.remove(i as int));
                    assert(pm_entries(r1) =~= pm_entries(r0).remove(i as int));
                    lemma_pm_unique(r0);
                    lemma_kv_map_remove(pm_entries(r0), i as int);
                    assert(pm_entries(r0)[i as int].0 == name@);
                    lemma_db_wf_remove(r0, i as int);
                    assert(r1 == DbRec { projects: r0.projects.remove(i as int), ..r0 });
                }
                Ok(())
            },
        }
    }
}

/// Well-formedness of a stored project follows from the aggregate's.
proof fn lemma_db_proj_wf(db: Database, i: int)
    requires
        db.wf(),
        0 <= i < db.projects@.len(),
    ensures
        proj_rec_wf(proj_rec(db.projects@[i])),
        db.projects@[i].name@ == db_rec(db).projects[i].0,
{
    let r = db_rec(db);
    assert(r.projects[i] == (db.projects@[i].name@, proj_rec(db.projects@[i])));
}

impl JsonStore {
    /// Update a project's description and/or rename it. A rename is a
    /// move: the old name is removed and the new one inserted in the
    /// same logical step, and fails with `ProjectAlreadyExists` when
    /// the new name is taken by a different project. Failures leave
    /// the aggregate unchanged.
    pub fn update_project(
        &mut self,
        name: &str,
        new_name: Option<String>,
        description: Option<String>,
    ) -> (r: Result<Project, AppError>)
        requires
            old(self).wf(),
        ensures
            final(self).wf(),
            match r {
                Ok(p) => ({
                    let oldp = old(self)@.projects[name@];
                    let target = rename_target(name@, new_name);
                    &&& old(self)@.projects.contains_key(name@)
                    &&& (match new_name {
                        Some(n2) => n2@ != name@ ==> !old(self)@.projects.contains_key(n2@),
                        None => true,
                    })
                    &&& p@.id == oldp.id
                    &&& p@.created_at == oldp.created_at
                    &&& p@.environments == oldp.environments
                    &&& p@.name == target
                    &&& p@.description == (match description {
                        Some(d) => Some(d@),
                        None => oldp.description,
                    })
                    &&& final(self)@ == spec_update_project(old(self)@, name@, target, p@)
                }),
                Err(e) => *final(self) == *old(self) && (match e {
                    AppError::ProjectNotFound(n) => n@ == name@
                        && !old(self)@.projects.contains_key(name@),
                    AppError::ProjectAlreadyExists(n) => (match new_name {
                        Some(n2) => n2@ == n@ && n2@ != name@,
                        None => false,
                    }) && old(self)@.projects.contains_key(name@)
                        && old(self)@.projects.contains_key(n@),
                    _ => false,
                }),
            },
    {
        let i = match find_project(&self.db.projects, name) {
            None => {
                proof {
                    lemma_db_absent(self.db, name@);
                }
                return Err(AppError::ProjectNotFound(name.to_owned()));
            },
            Some(i) => i,
        };
        proof {
            lemma_db_lookup(self.db, i as int);
            lemma_db_proj_wf(self.db, i as int);
        }
        if let Some(n2) = &new_name {
            if !str_eq(n2.as_str(), name) {
                match find_project(&self.db.projects, n2.as_str()) {
                    Some(c) => {
                        proof {
                            lemma_db_lookup(self.db, c as int);
                        }
                        return Err(AppError::ProjectAlreadyExists(n2.clone()));
                    },
                    None => {
                        proof {
                            lemma_db_absent(self.db, n2@);
                        }
                    },
                }
            }
        }
        let ghost db0 = self.db;
        let mut p = self.db.projects.remove(i);
        let ghost p0 = p;
        match description {
            Some(d) => {
                p.description = Some(d);
            },
            None => {},
        }
        match new_name {
            Some(n2) => {
                p.name = n2;
            },
            None => {},
        }
        p.update_timestamp();
        let ret = p.clone();
        let ghost p1 = p;
        self.db.projects.push(p);
        proof {
            let r0 = db_rec(db0);
            assert(proj_rec(p1).environments == proj_rec(p0).environments);
            assert(proj_rec_wf(proj_rec(p1)));
            assert forall|j: int|
                0 <= j < db0.projects@.len() && j != i implies (#[trigger] db0.projects@[j]).name@
                != p1.name@ by {
                assert(r0.projects[j].0 == db0.projects@[j].name@);
                assert(r0.projects[i as int].0 == db0.projects@[i as int].name@);
                if j < i as int {
                    assert(r0.projects[j].0 != r0.projects[i as int].0);
                } else {
                    assert(r0.projects[i as int].0 != r0.projects[j].0);
                }
            }
            lemma_db_replace(db0, self.db, i as int, p1);
            assert(ret@ == p1@);
            assert(p1@.environments == p0@.environments);
        }
        Ok(ret)
    }

    /// Write a variable into a project's environment, creating the
    /// environment when absent; the key is fully replaced and the
    /// project timestamp refreshed. Fails with `ProjectNotFound`
    /// exactly when the project is absent, leaving the aggregate
    /// unchanged.
    pub fn set_variable(
        &mut self,
        project_name: &str,
        env: &str,
        key: String,
        value: String,
        encrypted: bool,
    ) -> (r: Result<EnvVariable, AppError>)
        requires
            old(self).wf(),
        ensures
            final(self).wf(),
            match r {
                Ok(v) => old(self)@.projects.contains_key(project_name@) && v@.value == value@
                    && v@.encrypted == encrypted && v@.created_at == v@.updated_at && final(self)@
                    == spec_set_variable(
                    old(self)@,
                    project_name@,
                    env@,
                    key@,
                    v@,
                    final(self)@.projects[project_name@].updated_at,
                ),
                Err(e) => !old(self)@.projects.contains_key(project_name@) && (e matches
                    AppError::ProjectNotFound(n) && n@ == project_name@) && *final(self) == *old(self),
            },
    {
        let i = match find_project(&self.db.projects, project_name) {
            None => {
                proof {
                    lemma_db_absent(self.db, project_name@);
                }
                return Err(AppError::ProjectNotFound(project_name.to_owned()));
            },
            Some(i) => i,
        };
        proof {
            lemma_db_lookup(self.db, i as int);
            lemma_db_proj_wf(self.db, i as int);
        }
        let ghost db0 = self.db;
        let ghost m0 = self.db@;
        let mut p = self.db.projects.remove(i);
        let ghost p0 = p;
        let var = EnvVariable::new(value, encrypted);
        let ret = var.clone();
        let ghost vg = var;
        match find_env(&p.environments, env) {
            Some(j) => {
                proof {
                    lemma_proj_env_lookup(p, j as int);
                }
                let ghost envs0 = p.environments@;
                let (ename, mut evec) = p.environments.remove(j);
                let ghost evec0 = evec@;
                proof {
                    assert(kv_unique(var_rec(evec0))) by {
                        assert(proj_rec(p0).environments[j as int].1 == var_rec(evec0));
                    }
                }
                match find_var(&evec, key.as_str()) {
                    Some(k) => {
                        let _old = evec.remove(k);
                        evec.push((key, var));
                        proof {
                            assert(var_rec(evec@) =~= var_rec(evec0).remove(k as int).push(
                                (key@, vg@),
                            ));
                            assert(var_rec(evec0)[k as int].0 == key@);
                            lemma_kv_set(var_rec(evec0), k as int, key@, vg@);
                        }
                    },
                    None => {
                        evec.push((key, var));
                        proof {
                            assert(var_rec(evec@) =~= var_rec(evec0).push((key@, vg@)));
                            assert(forall|x: int|
                                0 <= x < evec0.len() ==> (#[trigger] var_rec(evec0)[x]).0
                                    == evec0[x].0@);
                            lemma_kv_add(var_rec(evec0), key@, vg@);
                        }
                    },
                }
                let ghost evg = evec@;
                p.environments.push((ename, evec));
                let ghost pmid = p;
                p.update_timestamp();
                let ghost p1 = p;
                proof {
                    assert(p1.environments@ == envs0.remove(j as int).push(
                        (envs0[j as int].0, pmid.environments@.last().1),
                    ));
                    lemma_proj_replace_env(
                        p0,
                        p1,
                        j as int,
                        pmid.environments@.last().1,
                    );
                    assert(kv_map(var_rec(evg)) == kv_map(var_rec(evec0)).insert(key@, vg@));
                }
            },
            None => {
                proof {
                    lemma_proj_env_absent(p, env@);
                }
                let mut evec: Environment = Vec::new();
                evec.push((key, var));
                let ghost envs0 = p.environments@;
                let en = env.to_owned();
                let ghost eng = en;
                let ghost evg = evec@;
                proof {
                    assert(var_rec(evg) =~= Seq::<(Seq<char>, VarModel)>::empty().push(
                        (key@, vg@),
                    ));
                    assert(Seq::<(Seq<char>, VarModel)>::empty().push((key@, vg@)).drop_last()
                        =~= Seq::<(Seq<char>, VarModel)>::empty());
                    assert(var_rec(evg).drop_last() =~= Seq::<(Seq<char>, VarModel)>::empty());
                    assert(kv_map(Seq::<(Seq<char>, VarModel)>::empty()) == Map::<
                        Seq<char>,
                        VarModel,
                    >::empty());
                    assert(var_rec(evg).last() == (key@, vg@));
                    assert(kv_map(var_rec(evg)) == Map::<Seq<char>, VarModel>::empty().insert(
                        key@,
                        vg@,
                    ));
                    assert(kv_unique(var_rec(evg)));
                }
                p.environments.push((en, evec));
                let ghost pmid = p;
                p.update_timestamp();
                let ghost p1 = p;
                proof {
                    assert(p1.environments@ == envs0.push((eng, pmid.environments@.last().1)));
                    lemma_proj_push_env(p0, p1, eng, pmid.environments@.last().1);
                }
            },
        }
        let ghost p1 = p;
        self.db.projects.push(p);
        proof {
            assert forall|j: int|
                0 <= j < db0.projects@.len() && j != i implies (#[trigger] db0.projects@[j]).name@
                != p1.name@ by {
                let r0 = db_rec(db0);
                assert(r0.projects[j].0 == db0.projects@[j].name@);
                assert(r0.projects[i as int].0 == db0.projects@[i as int].name@);
                if j < i as int {
                    assert(r0.projects[j].0 != r0.projects[i as int].0);
                } else {
                    assert(r0.projects[i as int].0 != r0.projects[j].0);
                }
            }
            lemma_db_replace(db0, self.db, i as int, p1);
            assert(ret@ == vg@);
            assert(m0.projects.remove(project_name@).insert(project_name@, p1@)
                =~= m0.projects.insert(project_name@, p1@));
            assert(final(self)@ == spec_set_variable(
                m0,
                project_name@,
                env@,
                key@,
                vg@,
                p1.updated_at as int,
            ));
        }
        Ok(ret)
    }

    /// Read a copy of a variable. The resolution order of failures is
    /// project, then environment, then key.
    pub fn get_variable(&self, project_name: &str, env: &str, key: &str) -> (r: Result<
        EnvVariable,
        AppError,
    >)
        requires
            self.wf(),
        ensures
            match r {
                Ok(v) => spec_get_variable(self@, project_name@, env@, key@) == Some(v@),
                Err(e) => spec_get_variable(self@, project_name@, env@, key@) is None && (match e {
                    AppError::ProjectNotFound(n) => n@ == project_name@ && spec_get_project(
                        self@,
                        project_name@,
                    ) is None,
                    AppError::EnvironmentNotFound(n) => n@ == env@ && spec_get_project(
                        self@,
                        project_name@,
                    ) is Some && spec_get_environment(self@, project_name@, env@) is None,
                    AppError::VariableNotFound(n) => n@ == key@ && spec_get_environment(
                        self@,
                        project_name@,
                        env@,
                    ) is Some,
                    _ => false,
                }),
            },
    {
        let i = match find_project(&self.db.projects, project_name) {
            None => {
                proof {
                    lemma_db_absent(self.db, project_name@);
                }
                return Err(AppError::ProjectNotFound(project_name.to_owned()));
            },
            Some(i) => i,
        };
        proof {
            lemma_db_lookup(self.db, i as int);
            lemma_db_proj_wf(self.db, i as int);
        }
        let p = &self.db.projects[i];
        let j = match find_env(&p.environments, env) {
            None => {
                proof {
                    lemma_proj_env_absent(*p, env@);
                }
                return Err(AppError::EnvironmentNotFound(env.to_owned()));
            },
            Some(j) => j,
        };
        proof {
            lemma_proj_env_lookup(*p, j as int);
        }
        let evec = &p.environments[j].1;
        proof {
            assert(kv_unique(var_rec(evec@))) by {
                assert(proj_rec(*p).environments[j as int].1 == var_rec(evec@));
            }
        }
        let k = match find_var(evec, key) {
            None => {
                proof {
                    lemma_env_var_absent(evec@, key@);
                }
                return Err(AppError::VariableNotFound(key.to_owned()));
            },
            Some(k) => k,
        };
        proof {
            lemma_env_var_lookup(evec@, k as int);
        }
        Ok(evec[k].1.clone())
    }

    /// Read a snapshot copy of a project's environment. The resolution
    /// order of failures is project, then environment.
    pub fn get_environment(&self, project_name: &str, env: &str) -> (r: Result<
        Environment,
        AppError,
    >)
        requires
            self.wf(),
        ensures
            match r {
                Ok(e) => spec_get_environment(self@, project_name@, env@) == Some(
                    kv_map(var_rec(e@)),
                ) && kv_unique(var_rec(e@)),
                Err(e) => spec_get_environment(self@, project_name@, env@) is None && (match e {
                    AppError::ProjectNotFound(n) => n@ == project_name@ && spec_get_project(
                        self@,
                        project_name@,
                    ) is None,
                    AppError::EnvironmentNotFound(n) => n@ == env@ && spec_get_project(
                        self@,
                        project_name@,
                    ) is Some,
                    _ => false,
                }),
            },
    {
        let i = match find_project(&self.db.projects, project_name) {
            None => {
                proof {
                    lemma_db_absent(self.db, project_name@);
                }
                return Err(AppError::ProjectNotFound(project_name.to_owned()));
            },
            Some(i) => i,
        };
        proof {
            lemma_db_lookup(self.db, i as int);
            lemma_db_proj_wf(self.db, i as int);
        }
        let p = &self.db.projects[i];
        let j = match find_env(&p.environments, env) {
            None => {
                proof {
                    lemma_proj_env_absent(*p, env@);
                }
                return Err(AppError::EnvironmentNotFound(env.to_owned()));
            },
            Some(j) => j,
        };
        proof {
            lemma_proj_env_lookup(*p, j as int);
            assert(kv_unique(var_rec(p.environments@[j as int].1@))) by {
                assert(proj_rec(*p).environments[j as int].1 == var_rec(
                    p.environments@[j as int].1@,
                ));
            }
        }
        Ok(Project::clone_environment(&p.environments[j].1))
    }

    /// Snapshot of all environments of a project, keyed by name. Fails
    /// with `ProjectNotFound` exactly when the project is absent.
    pub fn list_environments(&self, project_name: &str) -> (r: Result<
        Vec<(String, Environment)>,
        AppError,
    >)
        requires
            self.wf(),
        ensures
            r is Ok <==> self@.projects.contains_key(project_name@),
            r matches Err(e) ==> (e matches AppError::ProjectNotFound(n) && n@ == project_name@),
            r matches Ok(v) ==> envs_model(v@) == self@.projects[project_name@].environments
                && kv_unique(env_rec(v@)),
    {
        let i = match find_project(&self.db.projects, project_name) {
            None => {
                proof {
                    lemma_db_absent(self.db, project_name@);
                }
                return Err(AppError::ProjectNotFound(project_name.to_owned()));
            },
            Some(i) => i,
        };
        proof {
            lemma_db_lookup(self.db, i as int);
            lemma_db_proj_wf(self.db, i as int);
        }
        let p = &self.db.projects[i];
        let out = Project::clone_environments(&p.environments);
        proof {
            let pr = proj_rec(*p);
            assert(spec_get_project(self@, project_name@) == Some(p@));
            assert(env_rec(out@) == pr.environments);
            assert(env_rec(out@).map_values(|e: (Seq<char>, EnvRec)| (e.0, kv_map(e.1)))
                == em_entries(pr));
        }
        Ok(out)
    }

    /// Remove a variable and refresh the project timestamp. The
    /// resolution order of failures is project, then environment, then
    /// key; every failure leaves the aggregate unchanged.
    pub fn delete_variable(&mut self, project_name: &str, env: &str, key: &str) -> (r: Result<
        (),
        AppError,
    >)
        requires
            old(self).wf(),
        ensures
            final(self).wf(),
            match r {
                Ok(_) => spec_get_variable(old(self)@, project_name@, env@, key@) is Some
                    && final(self)@ == spec_delete_variable(
                    old(self)@,
                    project_name@,
                    env@,
                    key@,
                    final(self)@.projects[project_name@].updated_at,
                ),
                Err(e) => *final(self) == *old(self) && (match e {
                    AppError::ProjectNotFound(n) => n@ == project_name@ && spec_get_project(
                        old(self)@,
                        project_name@,
                    ) is None,
                    AppError::EnvironmentNotFound(n) => n@ == env@ && spec_get_project(
                        old(self)@,
                        project_name@,
                    ) is Some && spec_get_environment(old(self)@, project_name@, env@) is None,
                    AppError::VariableNotFound(n) => n@ == key@ && spec_get_environment(
                        old(self)@,
                        project_name@,
                        env@,
                    ) is Some && spec_get_variable(old(self)@, project_name@, env@, key@) is None,
                    _ => false,
                }),
            },
    {
        let i = match find_project(&self.db.projects, project_name) {
            None => {
                proof {
                    lemma_db_absent(self.db, project_name@);
                }
                return Err(AppError::ProjectNotFound(project_name.to_owned()));
            },
            Some(i) => i,
        };
        proof {
            lemma_db_lookup(self.db, i as int);
            lemma_db_proj_wf(self.db, i as int);
        }
        let j = match find_env(&self.db.projects[i].environments, env) {
            None => {
                proof {
                    lemma_proj_env_absent(self.db.projects@[i as int], env@);
                }
                return Err(AppError::EnvironmentNotFound(env.to_owned()));
            },
            Some(j) => j,
        };
        proof {
            lemma_proj_env_lookup(self.db.projects@[i as int], j as int);
            assert(kv_unique(var_rec(self.db.projects@[i as int].environments@[j as int].1@)))
                by {
                assert(proj_rec(self.db.projects@[i as int]).environments[j as int].1 == var_rec(
                    self.db.projects@[i as int].environments@[j as int].1@,
                ));
            }
        }
        let k = match find_var(&self.db.projects[i].environments[j].1, key) {
            None => {
                proof {
                    lemma_env_var_absent(
                        self.db.projects@[i as int].environments@[j as int].1@,
                        key@,
                    );
                }
                return Err(AppError::VariableNotFound(key.to_owned()));
            },
            Some(k) => k,
        };
        proof {
            lemma_env_var_lookup(self.db.projects@[i as int].environments@[j as int].1@, k as int);
        }
        let ghost db0 = self.db;
        let ghost m0 = self.db@;
        let mut p = self.db.projects.remove(i);
        let ghost p0 = p;
        let ghost envs0 = p.environments@;
        let (ename, mut evec) = p.environments.remove(j);
        let ghost evec0 = evec@;
        let _old = evec.remove(k);
        let ghost evg = evec@;
        proof {
            assert(var_rec(evg) =~= var_rec(evec0).remove(k as int));
            lemma_kv_map_remove(var_rec(evec0), k as int);
            lemma_kv_unique_remove_entry(var_rec(evec0), k as int);
            assert(var_rec(evec0)[k as int].0 == key@);
        }
        p.environments.push((ename, evec));
        let ghost pmid = p;
        p.update_timestamp();
        let ghost p1 = p;
        proof {
            assert(p1.environments@ == envs0.remove(j as int).push(
                (envs0[j as int].0, pmid.environments@.last().1),
            ));
            lemma_proj_replace_env(p0, p1, j as int, pmid.environments@.last().1);
            assert(kv_map(var_rec(evg)) == kv_map(var_rec(evec0)).remove(key@));
        }
        self.db.projects.push(p);
        proof {
            assert forall|x: int|
                0 <= x < db0.projects@.len() && x != i implies (#[trigger] db0.projects@[x]).name@
                != p1.name@ by {
                let r0 = db_rec(db0);
                assert(r0.projects[x].0 == db0.projects@[x].name@);
                assert(r0.projects[i as int].0 == db0.projects@[i as int].name@);
                if x < i as int {
                    assert(r0.projects[x].0 != r0.projects[i as int].0);
                } else {
                    assert(r0.projects[i as int].0 != r0.projects[x].0);
                }
            }
            lemma_db_replace(db0, self.db, i as int, p1);
            assert(m0.projects.remove(project_name@).insert(project_name@, p1@)
                =~= m0.projects.insert(project_name@, p1@));
            assert(final(self)@ == spec_delete_variable(
                m0,
                project_name@,
                env@,
                key@,
                p1.updated_at as int,
            ));
        }
        Ok(())
    }
}

} // verus!
