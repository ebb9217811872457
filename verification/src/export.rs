//! Export renderers: pure functions from an environment snapshot to
//! the four supported output formats.

use vstd::prelude::*;
use vstd::string::StringExecFns;

use crate::codec::render_string;
use crate::error::AppError;
use crate::models::{str_eq, var_rec, EnvRec, Environment};

verus! {

/// dotenv form: `KEY=value` lines joined by newlines.
pub open spec fn dotenv_rec(e: EnvRec) -> Seq<char>
    decreases e.len(),
{
    if e.len() == 0 {
        Seq::empty()
    } else if e.len() == 1 {
        e[0].0 + "="@ + e[0].1.value
    } else {
        dotenv_rec(e.drop_last()) + "\n"@ + e.last().0 + "="@ + e.last().1.value
    }
}

/// yaml form: `key: value` lines joined by newlines.
pub open spec fn yaml_rec(e: EnvRec) -> Seq<char>
    decreases e.len(),
{
    if e.len() == 0 {
        Seq::empty()
    } else if e.len() == 1 {
        e[0].0 + ": "@ + e[0].1.value
    } else {
        yaml_rec(e.drop_last()) + "\n"@ + e.last().0 + ": "@ + e.last().1.value
    }
}

/// docker form: `-e KEY=value` tokens joined by single spaces.
pub open spec fn docker_rec(e: EnvRec) -> Seq<char>
    decreases e.len(),
{
    if e.len() == 0 {
        Seq::empty()
    } else if e.len() == 1 {
        "-e "@ + e[0].0 + "="@ + e[0].1.value
    } else {
        docker_rec(e.drop_last()) + " -e "@ + e.last().0 + "="@ + e.last().1.value
    }
}

/// One line of the pretty JSON object: indented quoted key and value.
pub open spec fn json_line(k: Seq<char>, v: Seq<char>) -> Seq<char> {
    "  "@ + render_string(k) + ": "@ + render_string(v)
}

/// The lines of the pretty JSON object, joined by `,\n`.
pub open spec fn json_lines(e: EnvRec) -> Seq<char>
    decreases e.len(),
{
    if e.len() == 0 {
        Seq::empty()
    } else if e.len() == 1 {
        json_line(e[0].0, e[0].1.value)
    } else {
        json_lines(e.drop_last()) + ",\n"@ + json_line(e.last().0, e.last().1.value)
    }
}

/// json form: a pretty-printed object of key to value; the encryption
/// flag is dropped.
pub open spec fn json_rec(e: EnvRec) -> Seq<char> {
    if e.len() == 0 {
        "{}"@
    } else {
        "{\n"@ + json_lines(e) + "\n}"@
    }
}

/// Render an environment in dotenv form.
pub fn export_dotenv(env: &Environment) -> (r: String)
    ensures
        r@ == dotenv_rec(var_rec(env@)),
{
    let mut acc = String::new();
    let mut i: usize = 0;
    while i < env.len()
        invariant
            i <= env@.len(),
            acc@ == dotenv_rec(var_rec(env@).take(i as int)),
        decreases env@.len() - i,
    {
        if i > 0 {
            acc.append("\n");
        }
        acc.append(env[i].0.as_str());
        acc.append("=");
        acc.append(env[i].1.value.as_str());
        proof {
            let t = var_rec(env@).take(i + 1 as int);
            assert(t.drop_last() =~= var_rec(env@).take(i as int));
            assert(t.last() == (env@[i as int].0@, env@[i as int].1@));
            assert(acc@ =~= dotenv_rec(t));
        }
        i = i + 1;
    }
    proof {
        assert(var_rec(env@).take(env@.len() as int) =~= var_rec(env@));
    }
    acc
}

/// Render an environment in yaml form.
pub fn export_yaml(env: &Environment) -> (r: String)
    ensures
        r@ == yaml_rec(var_rec(env@)),
{
    let mut acc = String::new();
    let mut i: usize = 0;
    while i < env.len()
        invariant
            i <= env@.len(),
            acc@ == yaml_rec(var_rec(env@).take(i as int)),
        decreases env@.len() - i,
    {
        if i > 0 {
            acc.append("\n");
        }
        acc.append(env[i].0.as_str());
        acc.append(": ");
        acc.append(env[i].1.value.as_str());
        proof {
            let t = var_rec(env@).take(i + 1 as int);
            assert(t.drop_last() =~= var_rec(env@).take(i as int));
            assert(t.last() == (env@[i as int].0@, env@[i as int].1@));
            assert(acc@ =~= yaml_rec(t));
        }
        i = i + 1;
    }
    proof {
        assert(var_rec(env@).take(env@.len() as int) =~= var_rec(env@));
    }
    acc
}

/// Render an environment in docker form.
pub fn export_docker(env: &Environment) -> (r: String)
    ensures
        r@ == docker_rec(var_rec(env@)),
{
    let mut acc = String::new();
    let mut i: usize = 0;
    while i < env.len()
        invariant
            i <= env@.len(),
            acc@ == docker_rec(var_rec(env@).take(i as int)),
        decreases env@.len() - i,
    {
        if i > 0 {
            acc.append(" -e ");
        } else {
            acc.append("-e ");
        }
        acc.append(env[i].0.as_str());
        acc.append("=");
        acc.append(env[i].1.value.as_str());
        proof {
            let t = var_rec(env@).take(i + 1 as int);
            assert(t.drop_last() =~= var_rec(env@).take(i as int));
            assert(t.last() == (env@[i as int].0@, env@[i as int].1@));
            assert(acc@ =~= docker_rec(t));
        }
        i = i + 1;
    }
    proof {
        assert(var_rec(env@).take(env@.len() as int) =~= var_rec(env@));
    }
    acc
}

/// Render an environment as a pretty JSON object of key to value; the
/// rendering itself cannot fail.
pub fn export_json(env: &Environment) -> (r: Result<String, AppError>)
    ensures
        r matches Ok(s) && s@ == json_rec(var_rec(env@)),
{
    if env.len() == 0 {
        proof {
            reveal_strlit("{}");
        }
        return Ok("{}".to_owned());
    }
    let mut acc = "{\n".to_owned();
    let mut i: usize = 0;
    while i < env.len()
        invariant
            i <= env@.len(),
            env@.len() > 0,
            acc@ == "{\n"@ + json_lines(var_rec(env@).take(i as int)),
        decreases env@.len() - i,
    {
        if i > 0 {
            acc.append(",\n");
        }
        acc.append("  ");
        acc.append(crate::codec::render_string_exec(env[i].0.as_str()).as_str());
        acc.append(": ");
        acc.append(crate::codec::render_string_exec(env[i].1.value.as_str()).as_str());
        proof {
            let t = var_rec(env@).take(i + 1 as int);
            assert(t.drop_last() =~= var_rec(env@).take(i as int));
            assert(t.last() == (env@[i as int].0@, env@[i as int].1@));
            assert(acc@ =~= "{\n"@ + json_lines(t));
        }
        i = i + 1;
    }
    acc.append("\n}");
    proof {
        assert(var_rec(env@).take(env@.len() as int) =~= var_rec(env@));
        assert(acc@ =~= json_rec(var_rec(env@)));
    }
    Ok(acc)
}

/// Render an environment in the named format; an unknown format is an
/// `InvalidInput` error.
pub fn export_environment(env: &Environment, format: &str) -> (r: Result<String, AppError>)
    ensures
        format@ == "dotenv"@ ==> (r matches Ok(s) && s@ == dotenv_rec(var_rec(env@))),
        format@ == "json"@ ==> (r matches Ok(s) && s@ == json_rec(var_rec(env@))),
        format@ == "yaml"@ ==> (r matches Ok(s) && s@ == yaml_rec(var_rec(env@))),
        format@ == "docker"@ ==> (r matches Ok(s) && s@ == docker_rec(var_rec(env@))),
        format@ != "dotenv"@ && format@ != "json"@ && format@ != "yaml"@ && format@ != "docker"@
            ==> (r matches Err(e) && e matches AppError::InvalidInput(m) && m@
            == "Unknown format: "@ + format@),
{
    proof {
        reveal_strlit("dotenv");
        reveal_strlit("json");
        reveal_strlit("yaml");
        reveal_strlit("docker");
        assert("dotenv"@[0] != "json"@[0] && "dotenv"@[0] != "yaml"@[0] && "dotenv"@[2]
            != "docker"@[2]);
        assert("json"@[0] != "yaml"@[0] && "json"@[0] != "docker"@[0] && "yaml"@[0]
            != "docker"@[0]);
        assert("dotenv"@ != "json"@ && "dotenv"@ != "yaml"@ && "dotenv"@ != "docker"@);
        assert("json"@ != "yaml"@ && "json"@ != "docker"@ && "yaml"@ != "docker"@);
    }
    if str_eq(format, "dotenv") {
        Ok(export_dotenv(env))
    } else if str_eq(format, "json") {
        export_json(env)
    } else if str_eq(format, "yaml") {
        Ok(export_yaml(env))
    } else if str_eq(format, "docker") {
        Ok(export_docker(env))
    } else {
        Err(AppError::InvalidInput("Unknown format: ".to_owned().concat(format)))
    }
}

} // verus!
