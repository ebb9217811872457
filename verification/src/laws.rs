//! Laws relating the store operations, stated and proved over the
//! database model. Together with the operation contracts these pin
//! down the observable behaviour of any sequence of operations.

use vstd::prelude::*;

use crate::models::{DbModel, ProjModel, VarModel};
use crate::store::{
    spec_delete_project, spec_get_project, spec_get_variable, spec_set_variable,
    spec_update_project,
};

verus! {

/// Law: writing a variable and immediately reading the same
/// project/environment/key yields exactly the value just written,
/// encryption flag included.
pub proof fn lemma_set_then_get(
    m: DbModel,
    pn: Seq<char>,
    env: Seq<char>,
    key: Seq<char>,
    v: VarModel,
    ts: int,
)
    requires
        m.projects.contains_key(pn),
    ensures
        spec_get_variable(spec_set_variable(m, pn, env, key, v, ts), pn, env, key) == Some(v),
{
}

/// Law: deleting a project removes it from every listing, and every
/// subsequent variable lookup against its former environments fails
/// at the project step, whatever environment and key are asked for.
pub proof fn lemma_delete_then_get(m: DbModel, pn: Seq<char>, env: Seq<char>, key: Seq<char>)
    ensures
        spec_get_project(spec_delete_project(m, pn), pn) is None,
        spec_get_variable(spec_delete_project(m, pn), pn, env, key) is None,
{
}

/// Law: a rename is a move. After renaming the project at `a` to `b`,
/// looking up `a` fails, and `b` holds a project with the same id and
/// the same environments as before the rename.
pub proof fn lemma_rename_moves(m: DbModel, a: Seq<char>, b: Seq<char>, p: ProjModel)
    requires
        m.projects.contains_key(a),
        a != b,
        p.id == m.projects[a].id,
        p.environments == m.projects[a].environments,
    ensures
        spec_get_project(spec_update_project(m, a, b, p), a) is None,
        spec_get_project(spec_update_project(m, a, b, p), b) == Some(p),
        spec_get_project(spec_update_project(m, a, b, p), b) matches Some(q) && q.id
            == m.projects[a].id && q.environments == m.projects[a].environments,
{
}

} // verus!
