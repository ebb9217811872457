//! Persistence codec: the database aggregate to and from its JSON
//! text form. The renderer emits a compact document with a fixed field
//! order; the parser accepts the same shape with arbitrary whitespace
//! between tokens, rejects duplicate keys, and requires each project
//! entry's key to equal the project's own name, so that every parsed
//! aggregate is well-formed.

use vstd::prelude::*;
use vstd::string::StrSliceExecFns;
use vstd::string::StringExecFns;

use crate::error::AppError;
use crate::models::{DbRec, EnvRec, ProjRec, VarModel};

verus! {

/// A character as escaped inside a JSON string: quotes and
/// backslashes take a leading backslash, everything else stands as
/// itself.
pub open spec fn esc_char(c: char) -> Seq<char> {
    if c == '"' || c == '\\' {
        seq!['\\', c]
    } else {
        seq![c]
    }
}

/// A string body with every character escaped.
pub open spec fn json_escape(s: Seq<char>) -> Seq<char>
    decreases s.len(),
{
    if s.len() == 0 {
        Seq::empty()
    } else {
        esc_char(s[0]) + json_escape(s.drop_first())
    }
}

/// A quoted, escaped JSON string.
pub open spec fn render_string(s: Seq<char>) -> Seq<char> {
    seq!['"'] + json_escape(s) + seq!['"']
}

/// The digit character for a value below ten.
pub open spec fn digit_char(d: int) -> char {
    if d == 0 {
        '0'
    } else if d == 1 {
        '1'
    } else if d == 2 {
        '2'
    } else if d == 3 {
        '3'
    } else if d == 4 {
        '4'
    } else if d == 5 {
        '5'
    } else if d == 6 {
        '6'
    } else if d == 7 {
        '7'
    } else if d == 8 {
        '8'
    } else {
        '9'
    }
}

/// The decimal digits of a non-negative integer, most significant
/// first.
pub open spec fn render_nat(n: int) -> Seq<char>
    decreases n,
{
    if n < 10 {
        seq![digit_char(n)]
    } else {
        render_nat(n / 10).push(digit_char(n % 10))
    }
}

/// A decimal integer, with a leading minus sign when negative.
pub open spec fn render_int(n: int) -> Seq<char> {
    if n < 0 {
        seq!['-'] + render_nat(-n)
    } else {
        render_nat(n)
    }
}

/// A JSON boolean literal.
pub open spec fn render_bool(b: bool) -> Seq<char> {
    if b {
        "true"@
    } else {
        "false"@
    }
}

/// A variable as a JSON object with a fixed field order.
pub open spec fn render_var(v: VarModel) -> Seq<char> {
    "{\"value\":"@ + render_string(v.value) + ",\"encrypted\":"@ + render_bool(v.encrypted)
        + ",\"created_at\":"@ + render_int(v.created_at) + ",\"updated_at\":"@ + render_int(
        v.updated_at,
    ) + "}"@
}

/// The entries of an environment object after the first, each with a
/// leading comma.
pub open spec fn render_env_more(e: EnvRec) -> Seq<char>
    decreases e.len(),
{
    if e.len() == 0 {
        Seq::empty()
    } else {
        ","@ + render_string(e[0].0) + ":"@ + render_var(e[0].1) + render_env_more(e.drop_first())
    }
}

/// An environment as a JSON object keyed by variable key.
pub open spec fn render_env(e: EnvRec) -> Seq<char> {
    if e.len() == 0 {
        "{}"@
    } else {
        "{"@ + render_string(e[0].0) + ":"@ + render_var(e[0].1) + render_env_more(e.drop_first())
            + "}"@
    }
}

/// The entries of an environments object after the first.
pub open spec fn render_envs_more(s: Seq<(Seq<char>, EnvRec)>) -> Seq<char>
    decreases s.len(),
{
    if s.len() == 0 {
        Seq::empty()
    } else {
        ","@ + render_string(s[0].0) + ":"@ + render_env(s[0].1) + render_envs_more(
            s.drop_first(),
        )
    }
}

/// A project's environments as a JSON object keyed by environment
/// name.
pub open spec fn render_envs(s: Seq<(Seq<char>, EnvRec)>) -> Seq<char> {
    if s.len() == 0 {
        "{}"@
    } else {
        "{"@ + render_string(s[0].0) + ":"@ + render_env(s[0].1) + render_envs_more(
            s.drop_first(),
        ) + "}"@
    }
}

/// An optional description: a JSON string or `null`.
pub open spec fn render_description(d: Option<Seq<char>>) -> Seq<char> {
    match d {
        Some(s) => render_string(s),
        None => "null"@,
    }
}

/// A project as a JSON object with a fixed field order.
#[verifier::opaque]
pub open spec fn render_proj(p: ProjRec) -> Seq<char> {
    "{\"id\":"@ + render_string(p.id) + ",\"name\":"@ + render_string(p.name)
        + ",\"description\":"@ + render_description(p.description) + ",\"environments\":"@
        + render_envs(p.environments) + ",\"created_at\":"@ + render_int(p.created_at)
        + ",\"updated_at\":"@ + render_int(p.updated_at) + "}"@
}

/// The project entries after the first.
pub open spec fn render_projs_more(s: Seq<(Seq<char>, ProjRec)>) -> Seq<char>
    decreases s.len(),
{
    if s.len() == 0 {
        Seq::empty()
    } else {
        ","@ + render_string(s[0].0) + ":"@ + render_proj(s[0].1) + render_projs_more(
            s.drop_first(),
        )
    }
}

/// All projects as a JSON object keyed by project name.
pub open spec fn render_projs(s: Seq<(Seq<char>, ProjRec)>) -> Seq<char> {
    if s.len() == 0 {
        "{}"@
    } else {
        "{"@ + render_string(s[0].0) + ":"@ + render_proj(s[0].1) + render_projs_more(
            s.drop_first(),
        ) + "}"@
    }
}

/// The whole backing document: projects, then metadata.
pub open spec fn render_db_rec(r: DbRec) -> Seq<char> {
    "{\"projects\":"@ + render_projs(r.projects) + ",\"metadata\":{\"version\":"@ + render_string(
        r.version,
    ) + ",\"last_backup\":"@ + render_int(r.last_backup) + "}}"@
}

/// JSON insignificant whitespace.
pub open spec fn is_ws(c: char) -> bool {
    c == ' ' || c == '\n' || c == '\t' || c == '\r'
}

/// The first position at or after `i` holding no whitespace.
pub open spec fn skip_ws(s: Seq<char>, i: int) -> int
    decreases s.len() - i,
{
    if 0 <= i < s.len() && is_ws(s[i]) {
        skip_ws(s, i + 1)
    } else {
        i
    }
}

/// Expect `lit` after whitespace; yields the position after it.
pub open spec fn parse_lit(s: Seq<char>, i: int, lit: Seq<char>) -> Option<int> {
    let j = skip_ws(s, i);
    if j + lit.len() <= s.len() && s.subrange(j, j + lit.len() as int) == lit {
        Some(j + lit.len() as int)
    } else {
        None
    }
}

/// The body of a quoted string from `i` up to its closing quote,
/// unescaping `\"` and `\\`; any other escape is an error.
pub open spec fn parse_str_body(s: Seq<char>, i: int) -> Option<(Seq<char>, int)>
    decreases s.len() - i,
{
    if i < 0 || i >= s.len() {
        None
    } else if s[i] == '"' {
        Some((Seq::empty(), i + 1))
    } else if s[i] == '\\' {
        if i + 1 < s.len() && (s[i + 1] == '"' || s[i + 1] == '\\') {
            match parse_str_body(s, i + 2) {
                Some((t, j)) => Some((seq![s[i + 1]] + t, j)),
                None => None,
            }
        } else {
            None
        }
    } else {
        match parse_str_body(s, i + 1) {
            Some((t, j)) => Some((seq![s[i]] + t, j)),
            None => None,
        }
    }
}

/// A quoted string after whitespace.
pub open spec fn parse_string_at(s: Seq<char>, i: int) -> Option<(Seq<char>, int)> {
    let j = skip_ws(s, i);
    if j < s.len() && s[j] == '"' {
        parse_str_body(s, j + 1)
    } else {
        None
    }
}

/// A decimal digit.
pub open spec fn is_digit(c: char) -> bool {
    c == '0' || c == '1' || c == '2' || c == '3' || c == '4' || c == '5' || c == '6' || c == '7'
        || c == '8' || c == '9'
}

/// The value of a decimal digit.
pub open spec fn digit_val(c: char) -> int {
    if c == '0' {
        0
    } else if c == '1' {
        1
    } else if c == '2' {
        2
    } else if c == '3' {
        3
    } else if c == '4' {
        4
    } else if c == '5' {
        5
    } else if c == '6' {
        6
    } else if c == '7' {
        7
    } else if c == '8' {
        8
    } else {
        9
    }
}

/// Greedily consume digits, folding them onto `acc`.
pub open spec fn parse_digits(s: Seq<char>, i: int, acc: int) -> (int, int)
    decreases s.len() - i,
{
    if 0 <= i < s.len() && is_digit(s[i]) {
        parse_digits(s, i + 1, acc * 10 + digit_val(s[i]))
    } else {
        (acc, i)
    }
}

/// A decimal integer after whitespace, within the signed 64-bit range.
pub open spec fn parse_int_at(s: Seq<char>, i: int) -> Option<(int, int)> {
    let j = skip_ws(s, i);
    if j < s.len() && s[j] == '-' {
        if j + 1 < s.len() && is_digit(s[j + 1]) {
            let (v, k) = parse_digits(s, j + 1, 0);
            if v <= 0x8000000000000000 {
                Some((-v, k))
            } else {
                None
            }
        } else {
            None
        }
    } else if j < s.len() && is_digit(s[j]) {
        let (v, k) = parse_digits(s, j, 0);
        if v <= 0x7fffffffffffffff {
            Some((v, k))
        } else {
            None
        }
    } else {
        None
    }
}

/// A JSON boolean after whitespace.
pub open spec fn parse_bool_at(s: Seq<char>, i: int) -> Option<(bool, int)> {
    match parse_lit(s, i, "true"@) {
        Some(j) => Some((true, j)),
        None => match parse_lit(s, i, "false"@) {
            Some(j) => Some((false, j)),
            None => None,
        },
    }
}

/// A variable object with the renderer's field order.
pub open spec fn parse_var_at(s: Seq<char>, i: int) -> Option<(VarModel, int)> {
    match parse_lit(s, i, "{"@) {
        Some(j0) => match parse_lit(s, j0, "\"value\":"@) {
            Some(j1) => match parse_string_at(s, j1) {
                Some((val, j2)) => match parse_lit(s, j2, ","@) {
                    Some(j2b) => match parse_lit(s, j2b, "\"encrypted\":"@) {
                        Some(j3) => match parse_bool_at(s, j3) {
                            Some((enc, j4)) => match parse_lit(s, j4, ","@) {
                                Some(j4b) => match parse_lit(s, j4b, "\"created_at\":"@) {
                                    Some(j5) => match parse_int_at(s, j5) {
                                        Some((ca, j6)) => match parse_lit(s, j6, ","@) {
                                            Some(j6b) => match parse_lit(
                                                s,
                                                j6b,
                                                "\"updated_at\":"@,
                                            ) {
                                                Some(j7) => match parse_int_at(s, j7) {
                                                    Some((ua, j8)) => match parse_lit(
                                                        s,
                                                        j8,
                                                        "}"@,
                                                    ) {
                                                        Some(j9) => Some(
                                                            (
                                                                VarModel {
                                                                    value: val,
                                                                    encrypted: enc,
                                                                    created_at: ca,
                                                                    updated_at: ua,
                                                                },
                                                                j9,
                                                            ),
                                                        ),
                                                        None => None,
                                                    },
                                                    None => None,
                                                },
                                                None => None,
                                            },
                                            None => None,
                                        },
                                        None => None,
                                    },
                                    None => None,
                                },
                                None => None,
                            },
                            None => None,
                        },
                        None => None,
                    },
                    None => None,
                },
                None => None,
            },
            None => None,
        },
        None => None,
    }
}

/// The remaining entries of an environment object, after `acc`.
/// Duplicate keys are an error.
pub open spec fn parse_env_more_at(s: Seq<char>, i: int, acc: EnvRec) -> Option<(EnvRec, int)>
    decreases s.len() - i,
{
    let j = skip_ws(s, i);
    if j < s.len() && s[j] == ',' {
        match parse_string_at(s, j + 1) {
            Some((k, j2)) => match parse_lit(s, j2, ":"@) {
                Some(j3) => match parse_var_at(s, j3) {
                    Some((v, j4)) => if crate::models::kv_has(acc, k) {
                        None
                    } else if i < j4 <= s.len() {
                        parse_env_more_at(s, j4, acc.push((k, v)))
                    } else {
                        None
                    },
                    None => None,
                },
                None => None,
            },
            None => None,
        }
    } else if j < s.len() && s[j] == '}' {
        Some((acc, j + 1))
    } else {
        None
    }
}

/// An environment object.
pub open spec fn parse_env_at(s: Seq<char>, i: int) -> Option<(EnvRec, int)> {
    match parse_lit(s, i, "{"@) {
        Some(j) => {
            let j2 = skip_ws(s, j);
            if j2 < s.len() && s[j2] == '}' {
                Some((Seq::empty(), j2 + 1))
            } else {
                match parse_string_at(s, j) {
                    Some((k, j3)) => match parse_lit(s, j3, ":"@) {
                        Some(j4) => match parse_var_at(s, j4) {
                            Some((v, j5)) => parse_env_more_at(s, j5, seq![(k, v)]),
                            None => None,
                        },
                        None => None,
                    },
                    None => None,
                }
            }
        },
        None => None,
    }
}

/// The remaining entries of an environments object, after `acc`.
pub open spec fn parse_envs_more_at(s: Seq<char>, i: int, acc: Seq<(Seq<char>, EnvRec)>) -> Option<
    (Seq<(Seq<char>, EnvRec)>, int),
>
    decreases s.len() - i,
{
    let j = skip_ws(s, i);
    if j < s.len() && s[j] == ',' {
        match parse_string_at(s, j + 1) {
            Some((k, j2)) => match parse_lit(s, j2, ":"@) {
                Some(j3) => match parse_env_at(s, j3) {
                    Some((v, j4)) => if crate::models::kv_has(acc, k) {
                        None
                    } else if i < j4 <= s.len() {
                        parse_envs_more_at(s, j4, acc.push((k, v)))
                    } else {
                        None
                    },
                    None => None,
                },
                None => None,
            },
            None => None,
        }
    } else if j < s.len() && s[j] == '}' {
        Some((acc, j + 1))
    } else {
        None
    }
}

/// An environments object.
pub open spec fn parse_envs_at(s: Seq<char>, i: int) -> Option<(Seq<(Seq<char>, EnvRec)>, int)> {
    match parse_lit(s, i, "{"@) {
        Some(j) => {
            let j2 = skip_ws(s, j);
            if j2 < s.len() && s[j2] == '}' {
                Some((Seq::empty(), j2 + 1))
            } else {
                match parse_string_at(s, j) {
                    Some((k, j3)) => match parse_lit(s, j3, ":"@) {
                        Some(j4) => match parse_env_at(s, j4) {
                            Some((v, j5)) => parse_envs_more_at(s, j5, seq![(k, v)]),
                            None => None,
                        },
                        None => None,
                    },
                    None => None,
                }
            }
        },
        None => None,
    }
}

/// A description value: a string or `null`.
pub open spec fn parse_description_at(s: Seq<char>, i: int) -> Option<(Option<Seq<char>>, int)> {
    let j = skip_ws(s, i);
    if j < s.len() && s[j] == 'n' {
        match parse_lit(s, j, "null"@) {
            Some(j2) => Some((None, j2)),
            None => None,
        }
    } else {
        match parse_string_at(s, j) {
            Some((d, j2)) => Some((Some(d), j2)),
            None => None,
        }
    }
}

/// A project object with the renderer's field order.
pub open spec fn parse_proj_at(s: Seq<char>, i: int) -> Option<(ProjRec, int)> {
    match parse_lit(s, i, "{"@) {
        Some(j0) => match parse_lit(s, j0, "\"id\":"@) {
            Some(j1) => match parse_string_at(s, j1) {
                Some((id, j2)) => match parse_lit(s, j2, ","@) {
                    Some(j2b) => match parse_lit(s, j2b, "\"name\":"@) {
                        Some(j3) => match parse_string_at(s, j3) {
                            Some((name, j4)) => match parse_lit(s, j4, ","@) {
                                Some(j4b) => match parse_lit(s, j4b, "\"description\":"@) {
                                    Some(j5) => match parse_description_at(s, j5) {
                                        Some((desc, j6)) => match parse_lit(s, j6, ","@) {
                                            Some(j6b) => match parse_lit(
                                                s,
                                                j6b,
                                                "\"environments\":"@,
                                            ) {
                                                Some(j7) => match parse_envs_at(s, j7) {
                                                    Some((envs, j8)) => match parse_lit(
                                                        s,
                                                        j8,
                                                        ","@,
                                                    ) {
                                                        Some(j8b) => match parse_lit(
                                                            s,
                                                            j8b,
                                                            "\"created_at\":"@,
                                                        ) {
                                                            Some(j9) => match parse_int_at(
                                                                s,
                                                                j9,
                                                            ) {
                                                                Some((ca, j10)) => match parse_lit(
                                                                    s,
                                                                    j10,
                                                                    ","@,
                                                                ) {
                                                                    Some(j10b) => match parse_lit(
                                                                        s,
                                                                        j10b,
                                                                        "\"updated_at\":"@,
                                                                    ) {
                                                                        Some(j11) => match parse_int_at(
                                                                            s,
                                                                            j11,
                                                                        ) {
                                                                            Some(
                                                                                (ua, j12),
                                                                            ) => match parse_lit(
                                                                                s,
                                                                                j12,
                                                                                "}"@,
                                                                            ) {
                                                                                Some(j13) => Some(
                                                                                    (
                                                                                        ProjRec {
                                                                                            id,
                                                                                            name,
                                                                                            description: desc,
                                                                                            environments: envs,
                                                                                            created_at: ca,
                                                                                            updated_at: ua,
                                                                                        },
                                                                                        j13,
                                                                                    ),
                                                                                ),
                                                                                None => None,
                                                                            },
                                                                            None => None,
                                                                        },
                                                                        None => None,
                                                                    },
                                                                    None => None,
                                                                },
                                                                None => None,
                                                            },
                                                            None => None,
                                                        },
                                                        None => None,
                                                    },
                                                    None => None,
                                                },
                                                None => None,
                                            },
                                            None => None,
                                        },
                                        None => None,
                                    },
                                    None => None,
                                },
                                None => None,
                            },
                            None => None,
                        },
                        None => None,
                    },
                    None => None,
                },
                None => None,
            },
            None => None,
        },
        None => None,
    }
}

/// The remaining entries of the projects object, after `acc`. Each
/// entry's key must equal the project's own name.
pub open spec fn parse_projs_more_at(s: Seq<char>, i: int, acc: Seq<(Seq<char>, ProjRec)>) -> Option<
    (Seq<(Seq<char>, ProjRec)>, int),
>
    decreases s.len() - i,
{
    let j = skip_ws(s, i);
    if j < s.len() && s[j] == ',' {
        match parse_string_at(s, j + 1) {
            Some((k, j2)) => match parse_lit(s, j2, ":"@) {
                Some(j3) => match parse_proj_at(s, j3) {
                    Some((p, j4)) => if crate::models::kv_has(acc, k) || p.name != k {
                        None
                    } else if i < j4 <= s.len() {
                        parse_projs_more_at(s, j4, acc.push((k, p)))
                    } else {
                        None
                    },
                    None => None,
                },
                None => None,
            },
            None => None,
        }
    } else if j < s.len() && s[j] == '}' {
        Some((acc, j + 1))
    } else {
        None
    }
}

/// The projects object.
pub open spec fn parse_projs_at(s: Seq<char>, i: int) -> Option<(Seq<(Seq<char>, ProjRec)>, int)> {
    match parse_lit(s, i, "{"@) {
        Some(j) => {
            let j2 = skip_ws(s, j);
            if j2 < s.len() && s[j2] == '}' {
                Some((Seq::empty(), j2 + 1))
            } else {
                match parse_string_at(s, j) {
                    Some((k, j3)) => match parse_lit(s, j3, ":"@) {
                        Some(j4) => match parse_proj_at(s, j4) {
                            Some((p, j5)) => if p.name != k {
                                None
                            } else {
                                parse_projs_more_at(s, j5, seq![(k, p)])
                            },
                            None => None,
                        },
                        None => None,
                    },
                    None => None,
                }
            }
        },
        None => None,
    }
}

/// The whole backing document.
pub open spec fn parse_db_at(s: Seq<char>, i: int) -> Option<(DbRec, int)> {
    match parse_lit(s, i, "{"@) {
        Some(j0) => match parse_lit(s, j0, "\"projects\":"@) {
            Some(j1) => match parse_projs_at(s, j1) {
                Some((projs, j2)) => match parse_lit(s, j2, ","@) {
                    Some(j2b) => match parse_lit(s, j2b, "\"metadata\":"@) {
                        Some(j3) => match parse_lit(s, j3, "{"@) {
                            Some(j3b) => match parse_lit(s, j3b, "\"version\":"@) {
                                Some(j4) => match parse_string_at(s, j4) {
                                    Some((ver, j5)) => match parse_lit(s, j5, ","@) {
                                        Some(j5b) => match parse_lit(
                                            s,
                                            j5b,
                                            "\"last_backup\":"@,
                                        ) {
                                            Some(j6) => match parse_int_at(s, j6) {
                                                Some((lb, j7)) => match parse_lit(s, j7, "}"@) {
                                                    Some(j8) => match parse_lit(s, j8, "}"@) {
                                                        Some(j9) => Some(
                                                            (
                                                                DbRec {
                                                                    projects: projs,
                                                                    version: ver,
                                                                    last_backup: lb,
                                                                },
                                                                j9,
                                                            ),
                                                        ),
                                                        None => None,
                                                    },
                                                    None => None,
                                                },
                                                None => None,
                                            },
                                            None => None,
                                        },
                                        None => None,
                                    },
                                    None => None,
                                },
                                None => None,
                            },
                            None => None,
                        },
                        None => None,
                    },
                    None => None,
                },
                None => None,
            },
            None => None,
        },
        None => None,
    }
}

/// Parse a complete document: the database object followed only by
/// whitespace.
pub open spec fn spec_parse_database(s: Seq<char>) -> Option<DbRec> {
    match parse_db_at(s, 0) {
        Some((r, i)) => if skip_ws(s, i) == s.len() {
            Some(r)
        } else {
            None
        },
        None => None,
    }
}

/// Relies on String::push: appends exactly the one character.
#[verifier::external_body]
fn push_char(s: &mut String, c: char)
    ensures
        final(s)@ == old(s)@ + seq![c],
{
    s.push(c)
}

/// Escaping distributes over appending one character.
proof fn lemma_json_escape_push(s: Seq<char>, c: char)
    ensures
        json_escape(s.push(c)) == json_escape(s) + esc_char(c),
    decreases s.len(),
{
    if s.len() == 0 {
        assert(s.push(c).drop_first() =~= Seq::<char>::empty());
        assert(json_escape(Seq::<char>::empty()) =~= Seq::<char>::empty());
        assert(s.push(c)[0] == c);
        assert(json_escape(s.push(c)) =~= esc_char(c));
        assert(json_escape(s) + esc_char(c) =~= esc_char(c));
    } else {
        assert(s.push(c).drop_first() =~= s.drop_first().push(c));
        lemma_json_escape_push(s.drop_first(), c);
        assert(json_escape(s.push(c)) =~= json_escape(s) + esc_char(c));
    }
}

/// The digit character of a value below ten, as a string slice.
fn digit_str(d: u64) -> (r: &'static str)
    requires
        d < 10,
    ensures
        r@ == seq![digit_char(d as int)],
{
    proof {
        reveal_strlit("0");
        reveal_strlit("1");
        reveal_strlit("2");
        reveal_strlit("3");
        reveal_strlit("4");
        reveal_strlit("5");
        reveal_strlit("6");
        reveal_strlit("7");
        reveal_strlit("8");
        reveal_strlit("9");
    }
    match d {
        0 => "0",
        1 => "1",
        2 => "2",
        3 => "3",
        4 => "4",
        5 => "5",
        6 => "6",
        7 => "7",
        8 => "8",
        _ => "9",
    }
}

/// Decimal digits of a non-negative value.
fn render_nat_exec(n: u64) -> (r: String)
    ensures
        r@ == render_nat(n as int),
    decreases n,
{
    if n < 10 {
        digit_str(n).to_owned()
    } else {
        let mut s = render_nat_exec(n / 10);
        s.append(digit_str(n % 10));
        proof {
            assert(s@ =~= render_nat((n / 10) as int).push(digit_char((n % 10) as int)));
        }
        s
    }
}

/// A decimal integer, with a leading minus sign when negative.
fn render_int_exec(n: i64) -> (r: String)
    ensures
        r@ == render_int(n as int),
{
    if n < 0 {
        let m: u64 = ((-(n + 1)) as u64) + 1;
        proof {
            assert(m as int == -(n as int));
        }
        let mut s = "-".to_owned();
        s.append(render_nat_exec(m).as_str());
        proof {
            reveal_strlit("-");
            assert(s@ =~= seq!['-'] + render_nat(m as int));
        }
        s
    } else {
        render_nat_exec(n as u64)
    }
}

/// A quoted, escaped JSON string.
pub(crate) fn render_string_exec(s: &str) -> (r: String)
    ensures
        r@ == render_string(s@),
{
    let n = s.unicode_len();
    let mut acc = "\"".to_owned();
    proof {
        reveal_strlit("\"");
        assert(json_escape(s@.take(0)) =~= Seq::<char>::empty());
        assert(acc@ =~= seq!['"'] + json_escape(s@.take(0)));
    }
    let mut i: usize = 0;
    while i < n
        invariant
            i <= n,
            n == s@.len(),
            acc@ == seq!['"'] + json_escape(s@.take(i as int)),
        decreases n - i,
    {
        let c = s.get_char(i);
        if c == '"' {
            acc.append("\\\"");
            proof {
                reveal_strlit("\\\"");
            }
        } else if c == '\\' {
            acc.append("\\\\");
            proof {
                reveal_strlit("\\\\");
            }
        } else {
            push_char(&mut acc, c);
        }
        proof {
            lemma_json_escape_push(s@.take(i as int), c);
            assert(s@.take(i as int).push(c) =~= s@.take(i + 1 as int));
            assert(acc@ =~= seq!['"'] + json_escape(s@.take(i + 1 as int)));
        }
        i = i + 1;
    }
    acc.append("\"");
    proof {
        reveal_strlit("\"");
        assert(s@.take(s@.len() as int) =~= s@);
        assert(acc@ =~= render_string(s@));
    }
    acc
}

/// A variable as a JSON object.
fn render_var_exec(v: &crate::models::EnvVariable) -> (r: String)
    ensures
        r@ == render_var(v@),
{
    let mut s = "{\"value\":".to_owned();
    s.append(render_string_exec(v.value.as_str()).as_str());
    s.append(",\"encrypted\":");
    if v.encrypted {
        s.append("true");
    } else {
        s.append("false");
    }
    s.append(",\"created_at\":");
    s.append(render_int_exec(v.created_at).as_str());
    s.append(",\"updated_at\":");
    s.append(render_int_exec(v.updated_at).as_str());
    s.append("}");
    proof {
        assert(s@ =~= render_var(v@));
    }
    s
}

/// The environment entries from `from` on, each with a leading comma.
fn render_env_more_exec(e: &crate::models::Environment, from: usize) -> (r: String)
    requires
        from <= e@.len(),
    ensures
        r@ == render_env_more(
            crate::models::var_rec(e@).subrange(from as int, e@.len() as int),
        ),
    decreases e@.len() - from,
{
    let ghost vr = crate::models::var_rec(e@);
    if from == e.len() {
        proof {
            assert(vr.subrange(from as int, e@.len() as int) =~= Seq::empty());
        }
        String::new()
    } else {
        let mut s = ",".to_owned();
        s.append(render_string_exec(e[from].0.as_str()).as_str());
        s.append(":");
        s.append(render_var_exec(&e[from].1).as_str());
        s.append(render_env_more_exec(e, from + 1).as_str());
        proof {
            reveal_strlit(",");
            reveal_strlit(":");
            let t = vr.subrange(from as int, e@.len() as int);
            assert(t[0] == (e@[from as int].0@, e@[from as int].1@));
            assert(t.drop_first() =~= vr.subrange(from + 1 as int, e@.len() as int));
            assert(s@ =~= ","@ + render_string(t[0].0) + ":"@ + render_var(t[0].1)
                + render_env_more(t.drop_first()));
        }
        s
    }
}

/// An environment as a JSON object.
fn render_env_exec(e: &crate::models::Environment) -> (r: String)
    ensures
        r@ == render_env(crate::models::var_rec(e@)),
{
    let ghost vr = crate::models::var_rec(e@);
    if e.len() == 0 {
        proof {
            reveal_strlit("{}");
        }
        "{}".to_owned()
    } else {
        let mut s = "{".to_owned();
        s.append(render_string_exec(e[0].0.as_str()).as_str());
        s.append(":");
        s.append(render_var_exec(&e[0].1).as_str());
        s.append(render_env_more_exec(e, 1).as_str());
        s.append("}");
        proof {
            assert(vr[0] == (e@[0].0@, e@[0].1@));
            assert(vr.drop_first() =~= vr.subrange(1, e@.len() as int));
            assert(s@ =~= render_env(vr));
        }
        s
    }
}

/// The environments entries from `from` on, each with a leading comma.
fn render_envs_more_exec(v: &Vec<(String, crate::models::Environment)>, from: usize) -> (r:
    String)
    requires
        from <= v@.len(),
    ensures
        r@ == render_envs_more(
            crate::models::env_rec(v@).subrange(from as int, v@.len() as int),
        ),
    decreases v@.len() - from,
{
    let ghost er = crate::models::env_rec(v@);
    if from == v.len() {
        proof {
            assert(er.subrange(from as int, v@.len() as int) =~= Seq::empty());
        }
        String::new()
    } else {
        let mut s = ",".to_owned();
        s.append(render_string_exec(v[from].0.as_str()).as_str());
        s.append(":");
        s.append(render_env_exec(&v[from].1).as_str());
        s.append(render_envs_more_exec(v, from + 1).as_str());
        proof {
            let t = er.subrange(from as int, v@.len() as int);
            assert(t[0] == (v@[from as int].0@, crate::models::var_rec(v@[from as int].1@)));
            assert(t.drop_first() =~= er.subrange(from + 1 as int, v@.len() as int));
            assert(s@ =~= ","@ + render_string(t[0].0) + ":"@ + render_env(t[0].1)
                + render_envs_more(t.drop_first()));
        }
        s
    }
}

/// A project's environments as a JSON object.
fn render_envs_exec(v: &Vec<(String, crate::models::Environment)>) -> (r: String)
    ensures
        r@ == render_envs(crate::models::env_rec(v@)),
{
    let ghost er = crate::models::env_rec(v@);
    if v.len() == 0 {
        proof {
            reveal_strlit("{}");
        }
        "{}".to_owned()
    } else {
        let mut s = "{".to_owned();
        s.append(render_string_exec(v[0].0.as_str()).as_str());
        s.append(":");
        s.append(render_env_exec(&v[0].1).as_str());
        s.append(render_envs_more_exec(v, 1).as_str());
        s.append("}");
        proof {
            assert(er[0] == (v@[0].0@, crate::models::var_rec(v@[0].1@)));
            assert(er.drop_first() =~= er.subrange(1, v@.len() as int));
            assert(s@ =~= render_envs(er));
        }
        s
    }
}

/// A project as a JSON object.
fn render_proj_exec(p: &crate::models::Project) -> (r: String)
    ensures
        r@ == render_proj(crate::models::proj_rec(*p)),
{
    let mut s = "{\"id\":".to_owned();
    s.append(render_string_exec(p.id.as_str()).as_str());
    s.append(",\"name\":");
    s.append(render_string_exec(p.name.as_str()).as_str());
    s.append(",\"description\":");
    match &p.description {
        Some(d) => {
            s.append(render_string_exec(d.as_str()).as_str());
        },
        None => {
            s.append("null");
        },
    }
    s.append(",\"environments\":");
    s.append(render_envs_exec(&p.environments).as_str());
    s.append(",\"created_at\":");
    s.append(render_int_exec(p.created_at).as_str());
    s.append(",\"updated_at\":");
    s.append(render_int_exec(p.updated_at).as_str());
    s.append("}");
    proof {
        reveal(render_proj);
        assert(s@ =~= render_proj(crate::models::proj_rec(*p)));
    }
    s
}

/// The project entries from `from` on, each with a leading comma.
fn render_projs_more_exec(v: &Vec<crate::models::Project>, from: usize) -> (r: String)
    requires
        from <= v@.len(),
    ensures
        r@ == render_projs_more(
            v@.map_values(
                |p: crate::models::Project| (p.name@, crate::models::proj_rec(p)),
            ).subrange(from as int, v@.len() as int),
        ),
    decreases v@.len() - from,
{
    let ghost pr = v@.map_values(
        |p: crate::models::Project| (p.name@, crate::models::proj_rec(p)),
    );
    if from == v.len() {
        proof {
            assert(pr.subrange(from as int, v@.len() as int) =~= Seq::empty());
        }
        String::new()
    } else {
        let mut s = ",".to_owned();
        s.append(render_string_exec(v[from].name.as_str()).as_str());
        s.append(":");
        s.append(render_proj_exec(&v[from]).as_str());
        s.append(render_projs_more_exec(v, from + 1).as_str());
        proof {
            let t = pr.subrange(from as int, v@.len() as int);
            assert(t[0] == (v@[from as int].name@, crate::models::proj_rec(v@[from as int])));
            assert(t.drop_first() =~= pr.subrange(from + 1 as int, v@.len() as int));
            assert(s@ =~= ","@ + render_string(t[0].0) + ":"@ + render_proj(t[0].1)
                + render_projs_more(t.drop_first()));
        }
        s
    }
}

/// All projects as a JSON object.
fn render_projs_exec(v: &Vec<crate::models::Project>) -> (r: String)
    ensures
        r@ == render_projs(
            v@.map_values(|p: crate::models::Project| (p.name@, crate::models::proj_rec(p))),
        ),
{
    let ghost pr = v@.map_values(
        |p: crate::models::Project| (p.name@, crate::models::proj_rec(p)),
    );
    if v.len() == 0 {
        proof {
            reveal_strlit("{}");
        }
        "{}".to_owned()
    } else {
        let mut s = "{".to_owned();
        s.append(render_string_exec(v[0].name.as_str()).as_str());
        s.append(":");
        s.append(render_proj_exec(&v[0]).as_str());
        s.append(render_projs_more_exec(v, 1).as_str());
        s.append("}");
        proof {
            assert(pr[0] == (v@[0].name@, crate::models::proj_rec(v@[0])));
            assert(pr.drop_first() =~= pr.subrange(1, v@.len() as int));
            assert(s@ =~= render_projs(pr));
        }
        s
    }
}

/// Powers of ten.
pub open spec fn pow10(k: int) -> int
    decreases k,
{
    if k <= 0 {
        1
    } else {
        10 * pow10(k - 1)
    }
}

/// The value of a digit sequence, most significant first.
pub open spec fn digits_val(d: Seq<char>) -> int
    decreases d.len(),
{
    if d.len() == 0 {
        0
    } else {
        digits_val(d.drop_last()) * 10 + digit_val(d.last())
    }
}

/// Powers of ten are positive.
proof fn lemma_pow10_pos(k: int)
    ensures
        pow10(k) >= 1,
    decreases k,
{
    if k > 0 {
        lemma_pow10_pos(k - 1);
    }
}

/// The digits of a non-negative integer denote it.
proof fn lemma_render_nat_digits(n: int)
    requires
        n >= 0,
    ensures
        render_nat(n).len() >= 1,
        forall|x: int| 0 <= x < render_nat(n).len() ==> is_digit(#[trigger] render_nat(n)[x]),
        digits_val(render_nat(n)) == n,
    decreases n,
{
    if n < 10 {
        assert(render_nat(n) =~= seq![digit_char(n)]);
        assert(render_nat(n).drop_last() =~= Seq::<char>::empty());
        assert(digits_val(Seq::<char>::empty()) == 0);
        assert(digit_val(digit_char(n)) == n);
        assert(is_digit(digit_char(n)));
    } else {
        lemma_render_nat_digits(n / 10);
        let t = render_nat(n / 10).push(digit_char(n % 10));
        assert(t.drop_last() =~= render_nat(n / 10));
        assert(t.last() == digit_char(n % 10));
        assert(digit_val(digit_char(n % 10)) == n % 10);
        assert(digits_val(t) == (n / 10) * 10 + n % 10);
        assert forall|x: int| 0 <= x < t.len() implies is_digit(#[trigger] t[x]) by {
            if x < t.len() - 1 {
                assert(t[x] == render_nat(n / 10)[x]);
            }
        }
    }
}

/// Prepending a digit scales its value by the length of the rest.
proof fn lemma_digits_val_cons(c: char, t: Seq<char>)
    ensures
        digits_val(seq![c] + t) == digit_val(c) * pow10(t.len() as int) + digits_val(t),
    decreases t.len(),
{
    let u = seq![c] + t;
    if t.len() == 0 {
        assert(u =~= seq![c]);
        assert(u.drop_last() =~= Seq::<char>::empty());
        assert(digits_val(Seq::<char>::empty()) == 0);
        assert(u.last() == c);
        assert(digits_val(u) == digit_val(c));
    } else {
        assert(u.drop_last() =~= seq![c] + t.drop_last());
        assert(u.last() == t.last());
        lemma_digits_val_cons(c, t.drop_last());
        let p = pow10(t.len() - 1);
        assert(digits_val(u) == (digit_val(c) * p + digits_val(t.drop_last())) * 10 + digit_val(
            t.last(),
        ));
        assert((digit_val(c) * p + digits_val(t.drop_last())) * 10 == digit_val(c) * p * 10
            + digits_val(t.drop_last()) * 10) by (nonlinear_arith);
        assert(digit_val(c) * p * 10 == digit_val(c) * (p * 10)) by (nonlinear_arith);
        assert(pow10(t.len() as int) == 10 * p);
        assert(digit_val(c) * (p * 10) == digit_val(c) * pow10(t.len() as int));
    }
}

/// A run of digits bounded by a non-digit folds to its value.
proof fn lemma_parse_digits_run(s: Seq<char>, i: int, ln: int, acc: int)
    requires
        0 <= i,
        i + ln <= s.len(),
        ln >= 0,
        forall|x: int| i <= x < i + ln ==> is_digit(#[trigger] s[x]),
        i + ln == s.len() || !is_digit(s[i + ln]),
    ensures
        parse_digits(s, i, acc) == (acc * pow10(ln) + digits_val(s.subrange(i, i + ln)), i + ln),
    decreases ln,
{
    if ln == 0 {
        assert(s.subrange(i, i) =~= Seq::<char>::empty());
        assert(acc * 1 == acc) by (nonlinear_arith);
    } else {
        assert(is_digit(s[i]));
        let d = digit_val(s[i]);
        lemma_parse_digits_run(s, i + 1, ln - 1, acc * 10 + d);
        let rest = s.subrange(i + 1, i + ln);
        assert(s.subrange(i, i + ln) =~= seq![s[i]] + rest);
        lemma_digits_val_cons(s[i], rest);
        let p = pow10(ln - 1);
        assert((acc * 10 + d) * p == acc * (10 * p) + d * p) by (nonlinear_arith);
        assert(pow10(ln) == 10 * p);
    }
}

/// The rendering of a 64-bit integer parses back to it when it ends at
/// a non-digit.
proof fn lemma_parse_int_render(s: Seq<char>, i: int, n: int)
    requires
        0 <= i,
        i + render_int(n).len() < s.len(),
        s.subrange(i, i + render_int(n).len()) == render_int(n),
        !is_digit(s[i + render_int(n).len()]),
        i64::MIN <= n <= i64::MAX,
    ensures
        parse_int_at(s, i) == Some((n, i + render_int(n).len())),
{
    let r = render_int(n);
    let w = s.subrange(i, i + r.len());
    assert(forall|y: int| 0 <= y < r.len() ==> #[trigger] w[y] == s[i + y]);
    if n < 0 {
        let m = -n;
        lemma_render_nat_digits(m);
        let d = render_nat(m);
        assert(r =~= seq!['-'] + d);
        assert(s[i] == '-') by {
            assert(w[0] == r[0]);
        }
        assert(skip_ws(s, i) == i);
        assert forall|x: int| i + 1 <= x < i + 1 + d.len() implies is_digit(#[trigger] s[x]) by {
            assert(w[x - i] == s[x]);
            assert(r[x - i] == d[x - i - 1]);
        }
        assert(s.subrange(i + 1, i + 1 + d.len()) =~= d) by {
            assert forall|y: int| 0 <= y < d.len() implies s.subrange(i + 1, i + 1 + d.len())[y]
                == d[y] by {
                assert(w[1 + y] == s[i + 1 + y]);
                assert(r[1 + y] == d[y]);
            }
        }
        assert(is_digit(s[i + 1])) by {
            assert(w[1] == s[i + 1]);
            assert(r[1] == d[0]);
        }
        lemma_parse_digits_run(s, i + 1, d.len() as int, 0);
        lemma_pow10_pos(d.len() as int);
        assert(parse_digits(s, i + 1, 0).0 == m);
        assert(m <= 0x8000000000000000);
    } else {
        lemma_render_nat_digits(n);
        let d = render_nat(n);
        assert(r == d);
        assert forall|x: int| i <= x < i + d.len() implies is_digit(#[trigger] s[x]) by {
            assert(w[x - i] == s[x]);
        }
        assert(s.subrange(i, i + d.len()) =~= d) by {
            assert forall|y: int| 0 <= y < d.len() implies s.subrange(i, i + d.len())[y] == d[y] by {
                assert(w[y] == s[i + y]);
            }
        }
        assert(is_digit(s[i])) by {
            assert(w[0] == s[i]);
        }
        assert(!is_ws(s[i]));
        assert(skip_ws(s, i) == i);
        assert(s[i] != '-');
        lemma_parse_digits_run(s, i, d.len() as int, 0);
        assert(parse_digits(s, i, 0).0 == n);
        assert(n <= 0x7fffffffffffffff);
    }
}

/// An embedded literal that starts with no whitespace parses as itself.
proof fn lemma_parse_lit_at(s: Seq<char>, i: int, lit: Seq<char>)
    requires
        0 <= i,
        i + lit.len() <= s.len(),
        s.subrange(i, i + lit.len()) == lit,
        lit.len() >= 1,
        !is_ws(lit[0]),
    ensures
        parse_lit(s, i, lit) == Some(i + lit.len()),
{
    assert(s[i] == lit[0]) by {
        assert(s.subrange(i, i + lit.len())[0] == s[i]);
    }
    assert(skip_ws(s, i) == i);
}

/// An embedded rendered string parses back to the string.
proof fn lemma_parse_str_body_render(v: Seq<char>, s: Seq<char>, i: int)
    requires
        0 <= i,
        i + json_escape(v).len() + 1 <= s.len(),
        s.subrange(i, i + json_escape(v).len() + 1) == json_escape(v) + seq!['"'],
    ensures
        parse_str_body(s, i) == Some((v, i + json_escape(v).len() + 1)),
    decreases v.len(),
{
    let e = json_escape(v);
    let w = s.subrange(i, i + e.len() + 1);
    if v.len() == 0 {
        assert(e =~= Seq::<char>::empty());
        assert(s[i] == '"') by {
            assert(w[0] == (e + seq!['"'])[0]);
        }
    } else {
        let c = v[0];
        let v2 = v.drop_first();
        let e2 = json_escape(v2);
        assert(e == esc_char(c) + e2);
        if c == '"' || c == '\\' {
            assert(s[i] == '\\' && s[i + 1] == c) by {
                assert(w[0] == (e + seq!['"'])[0]);
                assert(w[1] == (e + seq!['"'])[1]);
            }
            assert(s.subrange(i + 2, i + 2 + e2.len() + 1) =~= e2 + seq!['"']) by {
                assert forall|y: int| 0 <= y < e2.len() + 1 implies s.subrange(
                    i + 2,
                    i + 2 + e2.len() + 1,
                )[y] == (e2 + seq!['"'])[y] by {
                    assert(w[2 + y] == (e + seq!['"'])[2 + y]);
                }
            }
            lemma_parse_str_body_render(v2, s, i + 2);
            assert(seq![s[i + 1]] + v2 =~= v);
        } else {
            assert(s[i] == c) by {
                assert(w[0] == (e + seq!['"'])[0]);
            }
            assert(s[i] != '"' && s[i] != '\\');
            assert(s.subrange(i + 1, i + 1 + e2.len() + 1) =~= e2 + seq!['"']) by {
                assert forall|y: int| 0 <= y < e2.len() + 1 implies s.subrange(
                    i + 1,
                    i + 1 + e2.len() + 1,
                )[y] == (e2 + seq!['"'])[y] by {
                    assert(w[1 + y] == (e + seq!['"'])[1 + y]);
                }
            }
            lemma_parse_str_body_render(v2, s, i + 1);
            assert(seq![s[i]] + v2 =~= v);
        }
    }
}

/// An embedded quoted string parses back to its contents.
proof fn lemma_parse_string_render(v: Seq<char>, s: Seq<char>, i: int)
    requires
        0 <= i,
        i + render_string(v).len() <= s.len(),
        s.subrange(i, i + render_string(v).len()) == render_string(v),
    ensures
        parse_string_at(s, i) == Some((v, i + render_string(v).len())),
{
    let r = render_string(v);
    let e = json_escape(v);
    assert(s[i] == '"') by {
        assert(s.subrange(i, i + r.len())[0] == r[0]);
    }
    assert(skip_ws(s, i) == i);
    assert(s.subrange(i + 1, i + 1 + e.len() + 1) =~= e + seq!['"']) by {
        assert forall|y: int| 0 <= y < e.len() + 1 implies s.subrange(
            i + 1,
            i + 1 + e.len() + 1,
        )[y] == (e + seq!['"'])[y] by {
            assert(s.subrange(i, i + r.len())[1 + y] == r[1 + y]);
        }
    }
    lemma_parse_str_body_render(v, s, i + 1);
}

/// An embedded boolean literal parses back to its value.
proof fn lemma_parse_bool_render(b: bool, s: Seq<char>, i: int)
    requires
        0 <= i,
        i + render_bool(b).len() <= s.len(),
        s.subrange(i, i + render_bool(b).len()) == render_bool(b),
    ensures
        parse_bool_at(s, i) == Some((b, i + render_bool(b).len())),
{
    reveal_strlit("true");
    reveal_strlit("false");
    if b {
        lemma_parse_lit_at(s, i, "true"@);
    } else {
        assert(s[i] == 'f') by {
            assert(s.subrange(i, i + 5)[0] == "false"@[0]);
        }
        assert(skip_ws(s, i) == i);
        assert(parse_lit(s, i, "true"@) is None) by {
            if skip_ws(s, i) + 4 <= s.len() {
                assert(s.subrange(i, i + 4)[0] == s[i]);
                assert(s[i] != 't');
            }
        }
        lemma_parse_lit_at(s, i, "false"@);
    }
}

/// Timestamps representable in the signed 64-bit range.
pub open spec fn var_bounded(v: VarModel) -> bool {
    i64::MIN <= v.created_at <= i64::MAX && i64::MIN <= v.updated_at <= i64::MAX
}

/// All timestamps of an environment record are representable.
pub open spec fn env_bounded(e: EnvRec) -> bool {
    forall|x: int| 0 <= x < e.len() ==> var_bounded((#[trigger] e[x]).1)
}

/// All timestamps of a project record are representable.
pub open spec fn proj_bounded(p: ProjRec) -> bool {
    &&& i64::MIN <= p.created_at <= i64::MAX
    &&& i64::MIN <= p.updated_at <= i64::MAX
    &&& forall|x: int| 0 <= x < p.environments.len() ==> env_bounded((#[trigger] p.environments[x]).1)
}

/// All timestamps of a database record are representable. Every
/// record taken from an actual aggregate is, since the fields are
/// 64-bit integers.
pub open spec fn db_rec_bounded(r: DbRec) -> bool {
    &&& i64::MIN <= r.last_backup <= i64::MAX
    &&& forall|x: int| 0 <= x < r.projects.len() ==> proj_bounded((#[trigger] r.projects[x]).1)
}

/// An embedded rendered variable parses back to it.
#[verifier::rlimit(100)]
#[verifier::spinoff_prover]
proof fn lemma_parse_var_render(x: VarModel, s: Seq<char>, i: int)
    requires
        0 <= i,
        i + render_var(x).len() <= s.len(),
        s.subrange(i, i + render_var(x).len()) == render_var(x),
        var_bounded(x),
    ensures
        parse_var_at(s, i) == Some((x, i + render_var(x).len())),
{
    reveal_strlit("{\"value\":");
    reveal_strlit("\"value\":");
    reveal_strlit(",\"encrypted\":");
    reveal_strlit("\"encrypted\":");
    reveal_strlit(",\"created_at\":");
    reveal_strlit("\"created_at\":");
    reveal_strlit(",\"updated_at\":");
    reveal_strlit("\"updated_at\":");
    reveal_strlit("{");
    reveal_strlit(",");
    reveal_strlit("}");
    let r = render_var(x);
    let w = s.subrange(i, i + r.len());
    assert(forall|y: int| 0 <= y < r.len() ==> #[trigger] w[y] == s[i + y]);
    let sv = render_string(x.value);
    let bv = render_bool(x.encrypted);
    let c1 = render_int(x.created_at);
    let u1 = render_int(x.updated_at);
    let q1 = i + 9;
    let q2 = q1 + sv.len();
    let q3 = q2 + 13;
    let q4 = q3 + bv.len();
    let q5 = q4 + 14;
    let q6 = q5 + c1.len();
    let q7 = q6 + 14;
    let q8 = q7 + u1.len();
    assert(r.len() == 9 + sv.len() + 13 + bv.len() + 14 + c1.len() + 14 + u1.len() + 1);
    assert(s.subrange(i, i + 1) =~= "{"@) by {
        assert(w[0] == r[0]);
    }
    lemma_parse_lit_at(s, i, "{"@);
    assert(s.subrange(i + 1, q1) =~= "\"value\":"@) by {
        assert(forall|y: int| 0 <= y < 8 ==> #[trigger] s.subrange(i + 1, q1)[y] == w[1 + y]);
    }
    lemma_parse_lit_at(s, i + 1, "\"value\":"@);
    assert(s.subrange(q1, q2) =~= sv) by {
        assert(forall|y: int| 0 <= y < sv.len() ==> #[trigger] s.subrange(q1, q2)[y] == w[9 + y]);
    }
    lemma_parse_string_render(x.value, s, q1);
    assert(s.subrange(q2, q2 + 1) =~= ","@) by {
        assert(w[q2 - i] == r[q2 - i]);
    }
    lemma_parse_lit_at(s, q2, ","@);
    assert(s.subrange(q2 + 1, q3) =~= "\"encrypted\":"@) by {
        assert(forall|y: int| 0 <= y < 12 ==> #[trigger] s.subrange(q2 + 1, q3)[y] == w[q2 + 1 - i
            + y]);
    }
    lemma_parse_lit_at(s, q2 + 1, "\"encrypted\":"@);
    assert(s.subrange(q3, q4) =~= bv) by {
        assert(forall|y: int| 0 <= y < bv.len() ==> #[trigger] s.subrange(q3, q4)[y] == w[q3 - i
            + y]);
    }
    lemma_parse_bool_render(x.encrypted, s, q3);
    assert(s.subrange(q4, q4 + 1) =~= ","@) by {
        assert(w[q4 - i] == r[q4 - i]);
    }
    lemma_parse_lit_at(s, q4, ","@);
    assert(s.subrange(q4 + 1, q5) =~= "\"created_at\":"@) by {
        assert(forall|y: int| 0 <= y < 13 ==> #[trigger] s.subrange(q4 + 1, q5)[y] == w[q4 + 1 - i
            + y]);
    }
    lemma_parse_lit_at(s, q4 + 1, "\"created_at\":"@);
    assert(s.subrange(q5, q6) =~= c1) by {
        assert(forall|y: int| 0 <= y < c1.len() ==> #[trigger] s.subrange(q5, q6)[y] == w[q5 - i
            + y]);
    }
    assert(s[q6] == ',') by {
        assert(w[q6 - i] == r[q6 - i]);
    }
    lemma_parse_int_render(s, q5, x.created_at);
    assert(s.subrange(q6, q6 + 1) =~= ","@);
    lemma_parse_lit_at(s, q6, ","@);
    assert(s.subrange(q6 + 1, q7) =~= "\"updated_at\":"@) by {
        assert(forall|y: int| 0 <= y < 13 ==> #[trigger] s.subrange(q6 + 1, q7)[y] == w[q6 + 1 - i
            + y]);
    }
    lemma_parse_lit_at(s, q6 + 1, "\"updated_at\":"@);
    assert(s.subrange(q7, q8) =~= u1) by {
        assert(forall|y: int| 0 <= y < u1.len() ==> #[trigger] s.subrange(q7, q8)[y] == w[q7 - i
            + y]);
    }
    assert(s[q8] == '}') by {
        assert(w[q8 - i] == r[q8 - i]);
    }
    lemma_parse_int_render(s, q7, x.updated_at);
    assert(s.subrange(q8, q8 + 1) =~= "}"@);
    lemma_parse_lit_at(s, q8, "}"@);
    assert(VarModel {
        value: x.value,
        encrypted: x.encrypted,
        created_at: x.created_at,
        updated_at: x.updated_at,
    } == x);
}

/// The remaining rendered environment entries parse back onto `acc`.
#[verifier::rlimit(100)]
#[verifier::spinoff_prover]
proof fn lemma_parse_env_more_render(e: EnvRec, acc: EnvRec, s: Seq<char>, i: int)
    requires
        0 <= i,
        i + render_env_more(e).len() + 1 <= s.len(),
        s.subrange(i, i + render_env_more(e).len() + 1) == render_env_more(e) + seq!['}'],
        crate::models::kv_unique(acc + e),
        env_bounded(e),
    ensures
        parse_env_more_at(s, i, acc) == Some((acc + e, i + render_env_more(e).len() + 1)),
    decreases e.len(),
{
    reveal_strlit(",");
    reveal_strlit(":");
    let rm = render_env_more(e);
    let w = s.subrange(i, i + rm.len() + 1);
    assert(forall|y: int| 0 <= y < rm.len() + 1 ==> #[trigger] w[y] == s[i + y]);
    if e.len() == 0 {
        assert(s[i] == '}') by {
            assert(w[0] == '}');
        }
        assert(skip_ws(s, i) == i);
        assert(s[i] != ',');
        assert(acc + e =~= acc);
    } else {
        let e0 = e[0];
        let et = e.drop_first();
        let sv = render_string(e0.0);
        let vv = render_var(e0.1);
        let rt = render_env_more(et);
        assert(rm == ","@ + sv + ":"@ + vv + rt);
        let q1 = i + 1;
        let q2 = q1 + sv.len();
        let q3 = q2 + 1;
        let q4 = q3 + vv.len();
        assert(s[i] == ',') by {
            assert(w[0] == rm[0]);
        }
        assert(skip_ws(s, i) == i);
        assert(s.subrange(q1, q2) =~= sv) by {
            assert(forall|y: int| 0 <= y < sv.len() ==> #[trigger] s.subrange(q1, q2)[y] == w[1
                + y]);
        }
        lemma_parse_string_render(e0.0, s, q1);
        assert(s.subrange(q2, q3) =~= ":"@) by {
            assert(w[q2 - i] == rm[q2 - i]);
        }
        lemma_parse_lit_at(s, q2, ":"@);
        assert(s.subrange(q3, q4) =~= vv) by {
            assert(forall|y: int| 0 <= y < vv.len() ==> #[trigger] s.subrange(q3, q4)[y] == w[q3
                - i + y]);
        }
        assert(var_bounded(e0.1)) by {
            assert(e[0].1 == e0.1);
        }
        lemma_parse_var_render(e0.1, s, q3);
        assert(!crate::models::kv_has(acc, e0.0)) by {
            assert(forall|y: int| 0 <= y < acc.len() ==> (#[trigger] acc[y]).0 == (acc + e)[y].0);
            assert((acc + e)[acc.len() as int].0 == e0.0);
            assert(forall|y: int| 0 <= y < acc.len() ==> (#[trigger] acc[y]).0 != e0.0);
        }
        let acc2 = acc.push(e0);
        assert(acc2 + et =~= acc + e);
        assert(env_bounded(et)) by {
            assert(forall|y: int| 0 <= y < et.len() ==> #[trigger] et[y] == e[y + 1]);
        }
        assert(s.subrange(q4, q4 + rt.len() + 1) =~= rt + seq!['}']) by {
            assert(forall|y: int| 0 <= y < rt.len() + 1 ==> #[trigger] s.subrange(
                q4,
                q4 + rt.len() + 1,
            )[y] == w[q4 - i + y]);
        }
        lemma_parse_env_more_render(et, acc2, s, q4);
    }
}

/// An embedded rendered environment parses back to it.
#[verifier::rlimit(100)]
#[verifier::spinoff_prover]
proof fn lemma_parse_env_render(e: EnvRec, s: Seq<char>, i: int)
    requires
        0 <= i,
        i + render_env(e).len() <= s.len(),
        s.subrange(i, i + render_env(e).len()) == render_env(e),
        crate::models::kv_unique(e),
        env_bounded(e),
    ensures
        parse_env_at(s, i) == Some((e, i + render_env(e).len())),
{
    reveal_strlit("{}");
    reveal_strlit("{");
    reveal_strlit("}");
    reveal_strlit(":");
    let r = render_env(e);
    let w = s.subrange(i, i + r.len());
    assert(forall|y: int| 0 <= y < r.len() ==> #[trigger] w[y] == s[i + y]);
    if e.len() == 0 {
        assert(s[i] == '{' && s[i + 1] == '}') by {
            assert(w[0] == r[0]);
            assert(w[1] == r[1]);
        }
        assert(s.subrange(i, i + 1) =~= "{"@);
        lemma_parse_lit_at(s, i, "{"@);
        assert(skip_ws(s, i + 1) == i + 1);
        assert(e =~= Seq::<(Seq<char>, VarModel)>::empty());
    } else {
        let e0 = e[0];
        let et = e.drop_first();
        let sv = render_string(e0.0);
        let vv = render_var(e0.1);
        let rt = render_env_more(et);
        assert(r == "{"@ + sv + ":"@ + vv + rt + "}"@);
        let q1 = i + 1;
        let q2 = q1 + sv.len();
        let q3 = q2 + 1;
        let q4 = q3 + vv.len();
        assert(s.subrange(i, i + 1) =~= "{"@) by {
            assert(w[0] == r[0]);
        }
        lemma_parse_lit_at(s, i, "{"@);
        assert(s[q1] == '"') by {
            assert(w[1] == r[1]);
        }
        assert(skip_ws(s, q1) == q1);
        assert(s.subrange(q1, q2) =~= sv) by {
            assert(forall|y: int| 0 <= y < sv.len() ==> #[trigger] s.subrange(q1, q2)[y] == w[1
                + y]);
        }
        lemma_parse_string_render(e0.0, s, q1);
        assert(s.subrange(q2, q3) =~= ":"@) by {
            assert(w[q2 - i] == r[q2 - i]);
        }
        lemma_parse_lit_at(s, q2, ":"@);
        assert(s.subrange(q3, q4) =~= vv) by {
            assert(forall|y: int| 0 <= y < vv.len() ==> #[trigger] s.subrange(q3, q4)[y] == w[q3
                - i + y]);
        }
        assert(var_bounded(e0.1)) by {
            assert(e[0].1 == e0.1);
        }
        lemma_parse_var_render(e0.1, s, q3);
        let acc = seq![e0];
        assert(acc + et =~= e);
        assert(env_bounded(et)) by {
            assert(forall|y: int| 0 <= y < et.len() ==> #[trigger] et[y] == e[y + 1]);
        }
        assert(s.subrange(q4, q4 + rt.len() + 1) =~= rt + seq!['}']) by {
            assert(forall|y: int| 0 <= y < rt.len() + 1 ==> #[trigger] s.subrange(
                q4,
                q4 + rt.len() + 1,
            )[y] == w[q4 - i + y]);
        }
        lemma_parse_env_more_render(et, acc, s, q4);
    }
}

/// The remaining rendered environments parse back onto `acc`.
#[verifier::rlimit(100)]
#[verifier::spinoff_prover]
proof fn lemma_parse_envs_more_render(
    e: Seq<(Seq<char>, EnvRec)>,
    acc: Seq<(Seq<char>, EnvRec)>,
    s: Seq<char>,
    i: int,
)
    requires
        0 <= i,
        i + render_envs_more(e).len() + 1 <= s.len(),
        s.subrange(i, i + render_envs_more(e).len() + 1) == render_envs_more(e) + seq!['}'],
        crate::models::kv_unique(acc + e),
        forall|x: int| 0 <= x < e.len() ==> crate::models::kv_unique((#[trigger] e[x]).1),
        forall|x: int| 0 <= x < e.len() ==> env_bounded((#[trigger] e[x]).1),
    ensures
        parse_envs_more_at(s, i, acc) == Some((acc + e, i + render_envs_more(e).len() + 1)),
    decreases e.len(),
{
    reveal_strlit(",");
    reveal_strlit(":");
    let rm = render_envs_more(e);
    let w = s.subrange(i, i + rm.len() + 1);
    assert(forall|y: int| 0 <= y < rm.len() + 1 ==> #[trigger] w[y] == s[i + y]);
    if e.len() == 0 {
        assert(s[i] == '}') by {
            assert(w[0] == '}');
        }
        assert(skip_ws(s, i) == i);
        assert(s[i] != ',');
        assert(acc + e =~= acc);
    } else {
        let e0 = e[0];
        let et = e.drop_first();
        let sv = render_string(e0.0);
        let vv = render_env(e0.1);
        let rt = render_envs_more(et);
        assert(rm == ","@ + sv + ":"@ + vv + rt);
        let q1 = i + 1;
        let q2 = q1 + sv.len();
        let q3 = q2 + 1;
        let q4 = q3 + vv.len();
        assert(s[i] == ',') by {
            assert(w[0] == rm[0]);
        }
        assert(skip_ws(s, i) == i);
        assert(s.subrange(q1, q2) =~= sv) by {
            assert(forall|y: int| 0 <= y < sv.len() ==> #[trigger] s.subrange(q1, q2)[y] == w[1
                + y]);
        }
        lemma_parse_string_render(e0.0, s, q1);
        assert(s.subrange(q2, q3) =~= ":"@) by {
            assert(w[q2 - i] == rm[q2 - i]);
        }
        lemma_parse_lit_at(s, q2, ":"@);
        assert(s.subrange(q3, q4) =~= vv) by {
            assert(forall|y: int| 0 <= y < vv.len() ==> #[trigger] s.subrange(q3, q4)[y] == w[q3
                - i + y]);
        }
        assert(crate::models::kv_unique(e[0].1) && env_bounded(e[0].1));
        lemma_parse_env_render(e0.1, s, q3);
        assert(!crate::models::kv_has(acc, e0.0)) by {
            assert(forall|y: int| 0 <= y < acc.len() ==> (#[trigger] acc[y]).0 == (acc + e)[y].0);
            assert((acc + e)[acc.len() as int].0 == e0.0);
            assert(forall|y: int| 0 <= y < acc.len() ==> (#[trigger] acc[y]).0 != e0.0);
        }
        let acc2 = acc.push(e0);
        assert(acc2 + et =~= acc + e);
        assert(forall|y: int| 0 <= y < et.len() ==> #[trigger] et[y] == e[y + 1]);
        assert(s.subrange(q4, q4 + rt.len() + 1) =~= rt + seq!['}']) by {
            assert(forall|y: int| 0 <= y < rt.len() + 1 ==> #[trigger] s.subrange(
                q4,
                q4 + rt.len() + 1,
            )[y] == w[q4 - i + y]);
        }
        lemma_parse_envs_more_render(et, acc2, s, q4);
    }
}

/// An embedded rendered environments object parses back to it.
#[verifier::rlimit(100)]
#[verifier::spinoff_prover]
proof fn lemma_parse_envs_render(e: Seq<(Seq<char>, EnvRec)>, s: Seq<char>, i: int)
    requires
        0 <= i,
        i + render_envs(e).len() <= s.len(),
        s.subrange(i, i + render_envs(e).len()) == render_envs(e),
        crate::models::kv_unique(e),
        forall|x: int| 0 <= x < e.len() ==> crate::models::kv_unique((#[trigger] e[x]).1),
        forall|x: int| 0 <= x < e.len() ==> env_bounded((#[trigger] e[x]).1),
    ensures
        parse_envs_at(s, i) == Some((e, i + render_envs(e).len())),
{
    reveal_strlit("{}");
    reveal_strlit("{");
    reveal_strlit("}");
    reveal_strlit(":");
    let r = render_envs(e);
    let w = s.subrange(i, i + r.len());
    assert(forall|y: int| 0 <= y < r.len() ==> #[trigger] w[y] == s[i + y]);
    if e.len() == 0 {
        assert(s[i] == '{' && s[i + 1] == '}') by {
            assert(w[0] == r[0]);
            assert(w[1] == r[1]);
        }
        assert(s.subrange(i, i + 1) =~= "{"@);
        lemma_parse_lit_at(s, i, "{"@);
        assert(skip_ws(s, i + 1) == i + 1);
        assert(e =~= Seq::<(Seq<char>, EnvRec)>::empty());
    } else {
        let e0 = e[0];
        let et = e.drop_first();
        let sv = render_string(e0.0);
        let vv = render_env(e0.1);
        let rt = render_envs_more(et);
        assert(r == "{"@ + sv + ":"@ + vv + rt + "}"@);
        let q1 = i + 1;
        let q2 = q1 + sv.len();
        let q3 = q2 + 1;
        let q4 = q3 + vv.len();
        assert(s.subrange(i, i + 1) =~= "{"@) by {
            assert(w[0] == r[0]);
        }
        lemma_parse_lit_at(s, i, "{"@);
        assert(s[q1] == '"') by {
            assert(w[1] == r[1]);
        }
        assert(skip_ws(s, q1) == q1);
        assert(s.subrange(q1, q2) =~= sv) by {
            assert(forall|y: int| 0 <= y < sv.len() ==> #[trigger] s.subrange(q1, q2)[y] == w[1
                + y]);
        }
        lemma_parse_string_render(e0.0, s, q1);
        assert(s.subrange(q2, q3) =~= ":"@) by {
            assert(w[q2 - i] == r[q2 - i]);
        }
        lemma_parse_lit_at(s, q2, ":"@);
        assert(s.subrange(q3, q4) =~= vv) by {
            assert(forall|y: int| 0 <= y < vv.len() ==> #[trigger] s.subrange(q3, q4)[y] == w[q3
                - i + y]);
        }
        assert(crate::models::kv_unique(e[0].1) && env_bounded(e[0].1));
        lemma_parse_env_render(e0.1, s, q3);
        let acc = seq![e0];
        assert(acc + et =~= e);
        assert(forall|y: int| 0 <= y < et.len() ==> #[trigger] et[y] == e[y + 1]);
        assert(s.subrange(q4, q4 + rt.len() + 1) =~= rt + seq!['}']) by {
            assert(forall|y: int| 0 <= y < rt.len() + 1 ==> #[trigger] s.subrange(
                q4,
                q4 + rt.len() + 1,
            )[y] == w[q4 - i + y]);
        }
        lemma_parse_envs_more_render(et, acc, s, q4);
    }
}

/// An embedded rendered description parses back to it.
proof fn lemma_parse_description_render(d: Option<Seq<char>>, s: Seq<char>, i: int)
    requires
        0 <= i,
        i + render_description(d).len() <= s.len(),
        s.subrange(i, i + render_description(d).len()) == render_description(d),
    ensures
        parse_description_at(s, i) == Some((d, i + render_description(d).len())),
{
    reveal_strlit("null");
    let r = render_description(d);
    let w = s.subrange(i, i + r.len());
    assert(forall|y: int| 0 <= y < r.len() ==> #[trigger] w[y] == s[i + y]);
    match d {
        Some(v) => {
            assert(s[i] == '"') by {
                assert(w[0] == r[0]);
            }
            assert(skip_ws(s, i) == i);
            lemma_parse_string_render(v, s, i);
        },
        None => {
            assert(s[i] == 'n') by {
                assert(w[0] == r[0]);
            }
            assert(skip_ws(s, i) == i);
            lemma_parse_lit_at(s, i, "null"@);
        },
    }
}

/// Token facts for the first half of a rendered project: everything
/// up to and including the description.
#[verifier::rlimit(100)]
#[verifier::spinoff_prover]
proof fn lemma_parse_proj_render_head(p: ProjRec, s: Seq<char>, i: int)
    requires
        0 <= i,
        i + render_proj(p).len() <= s.len(),
        s.subrange(i, i + render_proj(p).len()) == render_proj(p),
    ensures
        ({
            let sid = render_string(p.id);
            let snm = render_string(p.name);
            let sde = render_description(p.description);
            let q1 = i + 6;
            let q2 = q1 + sid.len();
            let q3 = q2 + 8;
            let q4 = q3 + snm.len();
            let q5 = q4 + 15;
            let q6 = q5 + sde.len();
            &&& parse_lit(s, i, "{"@) == Some(i + 1)
            &&& parse_lit(s, i + 1, "\"id\":"@) == Some(q1)
            &&& parse_string_at(s, q1) == Some((p.id, q2))
            &&& parse_lit(s, q2, ","@) == Some(q2 + 1)
            &&& parse_lit(s, q2 + 1, "\"name\":"@) == Some(q3)
            &&& parse_string_at(s, q3) == Some((p.name, q4))
            &&& parse_lit(s, q4, ","@) == Some(q4 + 1)
            &&& parse_lit(s, q4 + 1, "\"description\":"@) == Some(q5)
            &&& parse_description_at(s, q5) == Some((p.description, q6))
        }),
{
    reveal(render_proj);
    reveal_strlit("{\"id\":");
    reveal_strlit("\"id\":");
    reveal_strlit(",\"name\":");
    reveal_strlit("\"name\":");
    reveal_strlit(",\"description\":");
    reveal_strlit("\"description\":");
    reveal_strlit("{");
    reveal_strlit(",");
    let r = render_proj(p);
    let w = s.subrange(i, i + r.len());
    assert(forall|y: int| 0 <= y < r.len() ==> #[trigger] w[y] == s[i + y]);
    let sid = render_string(p.id);
    let snm = render_string(p.name);
    let sde = render_description(p.description);
    let q1 = i + 6;
    let q2 = q1 + sid.len();
    let q3 = q2 + 8;
    let q4 = q3 + snm.len();
    let q5 = q4 + 15;
    let q6 = q5 + sde.len();
    assert(s.subrange(i, i + 1) =~= "{"@) by {
        assert(w[0] == r[0]);
    }
    lemma_parse_lit_at(s, i, "{"@);
    assert(s.subrange(i + 1, q1) =~= "\"id\":"@) by {
        assert(forall|y: int| 0 <= y < 5 ==> #[trigger] s.subrange(i + 1, q1)[y] == w[1 + y]);
    }
    lemma_parse_lit_at(s, i + 1, "\"id\":"@);
    assert(s.subrange(q1, q2) =~= sid) by {
        assert(forall|y: int| 0 <= y < sid.len() ==> #[trigger] s.subrange(q1, q2)[y] == w[6 + y]);
    }
    lemma_parse_string_render(p.id, s, q1);
    assert(s.subrange(q2, q2 + 1) =~= ","@) by {
        assert(w[q2 - i] == r[q2 - i]);
    }
    lemma_parse_lit_at(s, q2, ","@);
    assert(s.subrange(q2 + 1, q3) =~= "\"name\":"@) by {
        assert(forall|y: int| 0 <= y < 7 ==> #[trigger] s.subrange(q2 + 1, q3)[y] == w[q2 + 1 - i
            + y]);
    }
    lemma_parse_lit_at(s, q2 + 1, "\"name\":"@);
    assert(s.subrange(q3, q4) =~= snm) by {
        assert(forall|y: int| 0 <= y < snm.len() ==> #[trigger] s.subrange(q3, q4)[y] == w[q3 - i
            + y]);
    }
    lemma_parse_string_render(p.name, s, q3);
    assert(s.subrange(q4, q4 + 1) =~= ","@) by {
        assert(w[q4 - i] == r[q4 - i]);
    }
    lemma_parse_lit_at(s, q4, ","@);
    assert(s.subrange(q4 + 1, q5) =~= "\"description\":"@) by {
        assert(forall|y: int| 0 <= y < 14 ==> #[trigger] s.subrange(q4 + 1, q5)[y] == w[q4 + 1 - i
            + y]);
    }
    lemma_parse_lit_at(s, q4 + 1, "\"description\":"@);
    assert(s.subrange(q5, q6) =~= sde) by {
        assert(forall|y: int| 0 <= y < sde.len() ==> #[trigger] s.subrange(q5, q6)[y] == w[q5 - i
            + y]);
    }
    lemma_parse_description_render(p.description, s, q5);
}

/// Token facts for the second half of a rendered project: from the
/// environments to the closing brace.
#[verifier::rlimit(100)]
#[verifier::spinoff_prover]
proof fn lemma_parse_proj_render_tail(p: ProjRec, s: Seq<char>, i: int)
    requires
        0 <= i,
        i + render_proj(p).len() <= s.len(),
        s.subrange(i, i + render_proj(p).len()) == render_proj(p),
        crate::models::proj_rec_wf(p),
        proj_bounded(p),
    ensures
        ({
            let q6 = i + 6 + render_string(p.id).len() + 8 + render_string(p.name).len() + 15
                + render_description(p.description).len();
            let sen = render_envs(p.environments);
            let sca = render_int(p.created_at);
            let sua = render_int(p.updated_at);
            let q7 = q6 + 16;
            let q8 = q7 + sen.len();
            let q9 = q8 + 14;
            let q10 = q9 + sca.len();
            let q11 = q10 + 14;
            let q12 = q11 + sua.len();
            &&& parse_lit(s, q6, ","@) == Some(q6 + 1)
            &&& parse_lit(s, q6 + 1, "\"environments\":"@) == Some(q7)
            &&& parse_envs_at(s, q7) == Some((p.environments, q8))
            &&& parse_lit(s, q8, ","@) == Some(q8 + 1)
            &&& parse_lit(s, q8 + 1, "\"created_at\":"@) == Some(q9)
            &&& parse_int_at(s, q9) == Some((p.created_at, q10))
            &&& parse_lit(s, q10, ","@) == Some(q10 + 1)
            &&& parse_lit(s, q10 + 1, "\"updated_at\":"@) == Some(q11)
            &&& parse_int_at(s, q11) == Some((p.updated_at, q12))
            &&& parse_lit(s, q12, "}"@) == Some(q12 + 1)
            &&& q12 + 1 == i + render_proj(p).len()
        }),
{
    reveal(render_proj);
    reveal_strlit("{\"id\":");
    reveal_strlit(",\"name\":");
    reveal_strlit(",\"description\":");
    reveal_strlit(",\"environments\":");
    reveal_strlit("\"environments\":");
    reveal_strlit(",\"created_at\":");
    reveal_strlit("\"created_at\":");
    reveal_strlit(",\"updated_at\":");
    reveal_strlit("\"updated_at\":");
    reveal_strlit(",");
    reveal_strlit("}");
    let r = render_proj(p);
    let w = s.subrange(i, i + r.len());
    assert(forall|y: int| 0 <= y < r.len() ==> #[trigger] w[y] == s[i + y]);
    let sen = render_envs(p.environments);
    let sca = render_int(p.created_at);
    let sua = render_int(p.updated_at);
    let q6 = i + 6 + render_string(p.id).len() + 8 + render_string(p.name).len() + 15
        + render_description(p.description).len();
    let q7 = q6 + 16;
    let q8 = q7 + sen.len();
    let q9 = q8 + 14;
    let q10 = q9 + sca.len();
    let q11 = q10 + 14;
    let q12 = q11 + sua.len();
    assert(r.len() == 6 + render_string(p.id).len() + 8 + render_string(p.name).len() + 15
        + render_description(p.description).len() + 16 + sen.len() + 14 + sca.len() + 14
        + sua.len() + 1);
    assert(s.subrange(q6, q6 + 1) =~= ","@) by {
        assert(w[q6 - i] == r[q6 - i]);
    }
    lemma_parse_lit_at(s, q6, ","@);
    assert(s.subrange(q6 + 1, q7) =~= "\"environments\":"@) by {
        assert(forall|y: int| 0 <= y < 15 ==> #[trigger] s.subrange(q6 + 1, q7)[y] == w[q6 + 1 - i
            + y]);
    }
    lemma_parse_lit_at(s, q6 + 1, "\"environments\":"@);
    assert(s.subrange(q7, q8) =~= sen) by {
        assert(forall|y: int| 0 <= y < sen.len() ==> #[trigger] s.subrange(q7, q8)[y] == w[q7 - i
            + y]);
    }
    lemma_parse_envs_render(p.environments, s, q7);
    assert(s.subrange(q8, q8 + 1) =~= ","@) by {
        assert(w[q8 - i] == r[q8 - i]);
    }
    lemma_parse_lit_at(s, q8, ","@);
    assert(s.subrange(q8 + 1, q9) =~= "\"created_at\":"@) by {
        assert(forall|y: int| 0 <= y < 13 ==> #[trigger] s.subrange(q8 + 1, q9)[y] == w[q8 + 1 - i
            + y]);
    }
    lemma_parse_lit_at(s, q8 + 1, "\"created_at\":"@);
    assert(s.subrange(q9, q10) =~= sca) by {
        assert(forall|y: int| 0 <= y < sca.len() ==> #[trigger] s.subrange(q9, q10)[y] == w[q9 - i
            + y]);
    }
    assert(s[q10] == ',') by {
        assert(w[q10 - i] == r[q10 - i]);
    }
    lemma_parse_int_render(s, q9, p.created_at);
    assert(s.subrange(q10, q10 + 1) =~= ","@);
    lemma_parse_lit_at(s, q10, ","@);
    assert(s.subrange(q10 + 1, q11) =~= "\"updated_at\":"@) by {
        assert(forall|y: int| 0 <= y < 13 ==> #[trigger] s.subrange(q10 + 1, q11)[y] == w[q10 + 1
            - i + y]);
    }
    lemma_parse_lit_at(s, q10 + 1, "\"updated_at\":"@);
    assert(s.subrange(q11, q12) =~= sua) by {
        assert(forall|y: int| 0 <= y < sua.len() ==> #[trigger] s.subrange(q11, q12)[y] == w[q11
            - i + y]);
    }
    assert(s[q12] == '}') by {
        assert(w[q12 - i] == r[q12 - i]);
    }
    lemma_parse_int_render(s, q11, p.updated_at);
    assert(s.subrange(q12, q12 + 1) =~= "}"@);
    lemma_parse_lit_at(s, q12, "}"@);
}

/// An embedded rendered project parses back to it.
#[verifier::rlimit(100)]
#[verifier::spinoff_prover]
proof fn lemma_parse_proj_render(p: ProjRec, s: Seq<char>, i: int)
    requires
        0 <= i,
        i + render_proj(p).len() <= s.len(),
        s.subrange(i, i + render_proj(p).len()) == render_proj(p),
        crate::models::proj_rec_wf(p),
        proj_bounded(p),
    ensures
        parse_proj_at(s, i) == Some((p, i + render_proj(p).len())),
{
    reveal(render_proj);
    lemma_parse_proj_render_head(p, s, i);
    lemma_parse_proj_render_tail(p, s, i);
    assert(ProjRec {
        id: p.id,
        name: p.name,
        description: p.description,
        environments: p.environments,
        created_at: p.created_at,
        updated_at: p.updated_at,
    } == p);
}

/// The remaining rendered projects parse back onto `acc`.
#[verifier::rlimit(100)]
#[verifier::spinoff_prover]
proof fn lemma_parse_projs_more_render(
    e: Seq<(Seq<char>, ProjRec)>,
    acc: Seq<(Seq<char>, ProjRec)>,
    s: Seq<char>,
    i: int,
)
    requires
        0 <= i,
        i + render_projs_more(e).len() + 1 <= s.len(),
        s.subrange(i, i + render_projs_more(e).len() + 1) == render_projs_more(e) + seq!['}'],
        crate::models::kv_unique(acc + e),
        forall|x: int| 0 <= x < e.len() ==> (#[trigger] e[x]).1.name == e[x].0,
        forall|x: int| 0 <= x < e.len() ==> crate::models::proj_rec_wf((#[trigger] e[x]).1),
        forall|x: int| 0 <= x < e.len() ==> proj_bounded((#[trigger] e[x]).1),
    ensures
        parse_projs_more_at(s, i, acc) == Some((acc + e, i + render_projs_more(e).len() + 1)),
    decreases e.len(),
{
    reveal_strlit(",");
    reveal_strlit(":");
    let rm = render_projs_more(e);
    let w = s.subrange(i, i + rm.len() + 1);
    assert(forall|y: int| 0 <= y < rm.len() + 1 ==> #[trigger] w[y] == s[i + y]);
    if e.len() == 0 {
        assert(s[i] == '}') by {
            assert(w[0] == '}');
        }
        assert(skip_ws(s, i) == i);
        assert(s[i] != ',');
        assert(acc + e =~= acc);
    } else {
        let e0 = e[0];
        let et = e.drop_first();
        let sv = render_string(e0.0);
        let vv = render_proj(e0.1);
        let rt = render_projs_more(et);
        assert(rm == ","@ + sv + ":"@ + vv + rt);
        let q1 = i + 1;
        let q2 = q1 + sv.len();
        let q3 = q2 + 1;
        let q4 = q3 + vv.len();
        assert(s[i] == ',') by {
            assert(w[0] == rm[0]);
        }
        assert(skip_ws(s, i) == i);
        assert(s.subrange(q1, q2) =~= sv) by {
            assert(forall|y: int| 0 <= y < sv.len() ==> #[trigger] s.subrange(q1, q2)[y] == w[1
                + y]);
        }
        lemma_parse_string_render(e0.0, s, q1);
        assert(s.subrange(q2, q3) =~= ":"@) by {
            assert(w[q2 - i] == rm[q2 - i]);
        }
        lemma_parse_lit_at(s, q2, ":"@);
        assert(s.subrange(q3, q4) =~= vv) by {
            assert(forall|y: int| 0 <= y < vv.len() ==> #[trigger] s.subrange(q3, q4)[y] == w[q3
                - i + y]);
        }
        assert(crate::models::proj_rec_wf(e[0].1) && proj_bounded(e[0].1) && e[0].1.name
            == e[0].0);
        lemma_parse_proj_render(e0.1, s, q3);
        assert(!crate::models::kv_has(acc, e0.0)) by {
            assert(forall|y: int| 0 <= y < acc.len() ==> (#[trigger] acc[y]).0 == (acc + e)[y].0);
            assert((acc + e)[acc.len() as int].0 == e0.0);
            assert(forall|y: int| 0 <= y < acc.len() ==> (#[trigger] acc[y]).0 != e0.0);
        }
        let acc2 = acc.push(e0);
        assert(acc2 + et =~= acc + e);
        assert(forall|y: int| 0 <= y < et.len() ==> #[trigger] et[y] == e[y + 1]);
        assert(s.subrange(q4, q4 + rt.len() + 1) =~= rt + seq!['}']) by {
            assert(forall|y: int| 0 <= y < rt.len() + 1 ==> #[trigger] s.subrange(
                q4,
                q4 + rt.len() + 1,
            )[y] == w[q4 - i + y]);
        }
        lemma_parse_projs_more_render(et, acc2, s, q4);
    }
}

/// An embedded rendered projects object parses back to it.
#[verifier::rlimit(100)]
#[verifier::spinoff_prover]
proof fn lemma_parse_projs_render(e: Seq<(Seq<char>, ProjRec)>, s: Seq<char>, i: int)
    requires
        0 <= i,
        i + render_projs(e).len() <= s.len(),
        s.subrange(i, i + render_projs(e).len()) == render_projs(e),
        crate::models::kv_unique(e),
        forall|x: int| 0 <= x < e.len() ==> (#[trigger] e[x]).1.name == e[x].0,
        forall|x: int| 0 <= x < e.len() ==> crate::models::proj_rec_wf((#[trigger] e[x]).1),
        forall|x: int| 0 <= x < e.len() ==> proj_bounded((#[trigger] e[x]).1),
    ensures
        parse_projs_at(s, i) == Some((e, i + render_projs(e).len())),
{
    reveal_strlit("{}");
    reveal_strlit("{");
    reveal_strlit("}");
    reveal_strlit(":");
    let r = render_projs(e);
    let w = s.subrange(i, i + r.len());
    assert(forall|y: int| 0 <= y < r.len() ==> #[trigger] w[y] == s[i + y]);
    if e.len() == 0 {
        assert(s[i] == '{' && s[i + 1] == '}') by {
            assert(w[0] == r[0]);
            assert(w[1] == r[1]);
        }
        assert(s.subrange(i, i + 1) =~= "{"@);
        lemma_parse_lit_at(s, i, "{"@);
        assert(skip_ws(s, i + 1) == i + 1);
        assert(e =~= Seq::<(Seq<char>, ProjRec)>::empty());
    } else {
        let e0 = e[0];
        let et = e.drop_first();
        let sv = render_string(e0.0);
        let vv = render_proj(e0.1);
        let rt = render_projs_more(et);
        assert(r == "{"@ + sv + ":"@ + vv + rt + "}"@);
        let q1 = i + 1;
        let q2 = q1 + sv.len();
        let q3 = q2 + 1;
        let q4 = q3 + vv.len();
        assert(s.subrange(i, i + 1) =~= "{"@) by {
            assert(w[0] == r[0]);
        }
        lemma_parse_lit_at(s, i, "{"@);
        assert(s[q1] == '"') by {
            assert(w[1] == r[1]);
        }
        assert(skip_ws(s, q1) == q1);
        assert(s.subrange(q1, q2) =~= sv) by {
            assert(forall|y: int| 0 <= y < sv.len() ==> #[trigger] s.subrange(q1, q2)[y] == w[1
                + y]);
        }
        lemma_parse_string_render(e0.0, s, q1);
        assert(s.subrange(q2, q3) =~= ":"@) by {
            assert(w[q2 - i] == r[q2 - i]);
        }
        lemma_parse_lit_at(s, q2, ":"@);
        assert(s.subrange(q3, q4) =~= vv) by {
            assert(forall|y: int| 0 <= y < vv.len() ==> #[trigger] s.subrange(q3, q4)[y] == w[q3
                - i + y]);
        }
        assert(crate::models::proj_rec_wf(e[0].1) && proj_bounded(e[0].1) && e[0].1.name
            == e[0].0);
        lemma_parse_proj_render(e0.1, s, q3);
        let acc = seq![e0];
        assert(acc + et =~= e);
        assert(forall|y: int| 0 <= y < et.len() ==> #[trigger] et[y] == e[y + 1]);
        assert(s.subrange(q4, q4 + rt.len() + 1) =~= rt + seq!['}']) by {
            assert(forall|y: int| 0 <= y < rt.len() + 1 ==> #[trigger] s.subrange(
                q4,
                q4 + rt.len() + 1,
            )[y] == w[q4 - i + y]);
        }
        lemma_parse_projs_more_render(et, acc, s, q4);
    }
}

/// Token facts for the metadata tail of a rendered document.
#[verifier::rlimit(100)]
#[verifier::spinoff_prover]
proof fn lemma_round_trip_tail(r: DbRec, s: Seq<char>)
    requires
        s == render_db_rec(r),
        i64::MIN <= r.last_backup <= i64::MAX,
    ensures
        ({
            let sv = render_string(r.version);
            let sl = render_int(r.last_backup);
            let q2: int = 12 + render_projs(r.projects).len() as int;
            let q3 = q2 + 23;
            let q4 = q3 + sv.len();
            let q5 = q4 + 15;
            let q6 = q5 + sl.len();
            &&& parse_lit(s, q2, ","@) == Some(q2 + 1)
            &&& parse_lit(s, q2 + 1, "\"metadata\":"@) == Some(q2 + 12)
            &&& parse_lit(s, q2 + 12, "{"@) == Some(q2 + 13)
            &&& parse_lit(s, q2 + 13, "\"version\":"@) == Some(q3)
            &&& parse_string_at(s, q3) == Some((r.version, q4))
            &&& parse_lit(s, q4, ","@) == Some(q4 + 1)
            &&& parse_lit(s, q4 + 1, "\"last_backup\":"@) == Some(q5)
            &&& parse_int_at(s, q5) == Some((r.last_backup, q6))
            &&& parse_lit(s, q6, "}"@) == Some(q6 + 1)
            &&& parse_lit(s, q6 + 1, "}"@) == Some(q6 + 2)
            &&& q6 + 2 == s.len()
        }),
{
    reveal_strlit("{\"projects\":");
    reveal_strlit(",\"metadata\":{\"version\":");
    reveal_strlit("\"metadata\":");
    reveal_strlit("\"version\":");
    reveal_strlit(",\"last_backup\":");
    reveal_strlit("\"last_backup\":");
    reveal_strlit("{");
    reveal_strlit(",");
    reveal_strlit("}");
    reveal_strlit("}}");
    let sv = render_string(r.version);
    let sl = render_int(r.last_backup);
    let q2: int = 12 + render_projs(r.projects).len() as int;
    let q3 = q2 + 23;
    let q4 = q3 + sv.len();
    let q5 = q4 + 15;
    let q6 = q5 + sl.len();
    assert(s.len() == q6 + 2);
    assert(s.subrange(q2, q2 + 1) =~= ","@);
    lemma_parse_lit_at(s, q2, ","@);
    assert(s.subrange(q2 + 1, q2 + 12) =~= "\"metadata\":"@);
    lemma_parse_lit_at(s, q2 + 1, "\"metadata\":"@);
    assert(s.subrange(q2 + 12, q2 + 13) =~= "{"@);
    lemma_parse_lit_at(s, q2 + 12, "{"@);
    assert(s.subrange(q2 + 13, q3) =~= "\"version\":"@);
    lemma_parse_lit_at(s, q2 + 13, "\"version\":"@);
    assert(s.subrange(q3, q4) =~= sv);
    lemma_parse_string_render(r.version, s, q3);
    assert(s.subrange(q4, q4 + 1) =~= ","@);
    lemma_parse_lit_at(s, q4, ","@);
    assert(s.subrange(q4 + 1, q5) =~= "\"last_backup\":"@);
    lemma_parse_lit_at(s, q4 + 1, "\"last_backup\":"@);
    assert(s.subrange(q5, q6) =~= sl);
    assert(s[q6] == '}');
    lemma_parse_int_render(s, q5, r.last_backup);
    assert(s.subrange(q6, q6 + 1) =~= "}"@);
    lemma_parse_lit_at(s, q6, "}"@);
    assert(s.subrange(q6 + 1, q6 + 2) =~= "}"@);
    lemma_parse_lit_at(s, q6 + 1, "}"@);
}

/// Law: the backing document round-trips. Rendering any well-formed
/// aggregate and parsing the text back yields exactly the same record:
/// the same projects, environments and variables, in the same stored
/// order. Re-saving a freshly loaded store therefore reproduces an
/// equivalent file.
#[verifier::rlimit(100)]
#[verifier::spinoff_prover]
pub proof fn lemma_round_trip(r: DbRec)
    requires
        crate::models::db_rec_wf(r),
        db_rec_bounded(r),
    ensures
        spec_parse_database(render_db_rec(r)) == Some(r),
{
    reveal_strlit("{\"projects\":");
    reveal_strlit("\"projects\":");
    reveal_strlit("{");
    let s = render_db_rec(r);
    let w = s.subrange(0, s.len() as int);
    assert(w =~= s);
    assert(forall|y: int| 0 <= y < s.len() ==> #[trigger] w[y] == s[y]);
    let sp = render_projs(r.projects);
    let q1: int = 12;
    let q2 = q1 + sp.len();
    assert(s.subrange(0, 1) =~= "{"@) by {
        assert(w[0] == s[0]);
    }
    lemma_parse_lit_at(s, 0, "{"@);
    assert(s.subrange(1, q1) =~= "\"projects\":"@) by {
        assert(forall|y: int| 0 <= y < 11 ==> #[trigger] s.subrange(1, q1)[y] == w[1 + y]);
    }
    lemma_parse_lit_at(s, 1, "\"projects\":"@);
    assert(s.subrange(q1, q2) =~= sp) by {
        assert(forall|y: int| 0 <= y < sp.len() ==> #[trigger] s.subrange(q1, q2)[y] == w[12 + y]);
    }
    lemma_parse_projs_render(r.projects, s, q1);
    lemma_round_trip_tail(r, s);
    assert(DbRec { projects: r.projects, version: r.version, last_backup: r.last_backup } == r);
    assert(skip_ws(s, s.len() as int) == s.len());
}

/// Every record of an actual aggregate has representable timestamps.
pub proof fn lemma_db_rec_bounded(db: crate::models::Database)
    ensures
        db_rec_bounded(crate::models::db_rec(db)),
{
    let r = crate::models::db_rec(db);
    assert forall|x: int| 0 <= x < r.projects.len() implies proj_bounded(
        (#[trigger] r.projects[x]).1,
    ) by {
        let p = db.projects@[x];
        assert(r.projects[x] == (p.name@, crate::models::proj_rec(p)));
        let pr = crate::models::proj_rec(p);
        assert forall|y: int| 0 <= y < pr.environments.len() implies env_bounded(
            (#[trigger] pr.environments[y]).1,
        ) by {
            let ev = p.environments@[y];
            assert(pr.environments[y] == (ev.0@, crate::models::var_rec(ev.1@)));
            let er = crate::models::var_rec(ev.1@);
            assert(forall|z: int|
                0 <= z < er.len() ==> (#[trigger] er[z]).1 == ev.1@[z].1@);
        }
    }
}

/// Relies on FromIterator for String: the string of exactly these
/// characters, in order.
#[verifier::external_body]
fn chars_to_string(v: Vec<char>) -> (r: String)
    ensures
        r@ == v@,
{
    v.into_iter().collect()
}

/// The characters of a string slice, in order.
fn str_to_chars(s: &str) -> (v: Vec<char>)
    ensures
        v@ == s@,
{
    let n = s.unicode_len();
    let mut v: Vec<char> = Vec::new();
    let mut i: usize = 0;
    while i < n
        invariant
            i <= n,
            n == s@.len(),
            v@ == s@.take(i as int),
        decreases n - i,
    {
        v.push(s.get_char(i));
        proof {
            assert(s@.take(i as int).push(s@[i as int]) =~= s@.take(i + 1 as int));
        }
        i = i + 1;
    }
    proof {
        assert(s@.take(s@.len() as int) =~= s@);
    }
    v
}

/// Whitespace test on one character.
fn is_ws_exec(c: char) -> (r: bool)
    ensures
        r == is_ws(c),
{
    c == ' ' || c == '\n' || c == '\t' || c == '\r'
}

/// Digit test on one character.
fn is_digit_exec(c: char) -> (r: bool)
    ensures
        r == is_digit(c),
{
    c == '0' || c == '1' || c == '2' || c == '3' || c == '4' || c == '5' || c == '6' || c == '7'
        || c == '8' || c == '9'
}

/// The value of a digit character.
fn digit_val_exec(c: char) -> (r: u64)
    requires
        is_digit(c),
    ensures
        r as int == digit_val(c),
        r < 10,
{
    if c == '0' {
        0
    } else if c == '1' {
        1
    } else if c == '2' {
        2
    } else if c == '3' {
        3
    } else if c == '4' {
        4
    } else if c == '5' {
        5
    } else if c == '6' {
        6
    } else if c == '7' {
        7
    } else if c == '8' {
        8
    } else {
        9
    }
}

/// Advance past whitespace.
fn skip_ws_exec(v: &Vec<char>, i: usize) -> (r: usize)
    requires
        i <= v@.len(),
    ensures
        r as int == skip_ws(v@, i as int),
        i <= r <= v@.len(),
{
    let mut j = i;
    while j < v.len() && is_ws_exec(v[j])
        invariant
            i <= j <= v@.len(),
            skip_ws(v@, i as int) == skip_ws(v@, j as int),
        decreases v@.len() - j,
    {
        j = j + 1;
    }
    j
}

/// Expect the literal after whitespace.
fn parse_lit_exec(v: &Vec<char>, i: usize, lit: &str) -> (r: Option<usize>)
    requires
        i <= v@.len(),
    ensures
        match r {
            Some(j) => parse_lit(v@, i as int, lit@) == Some(j as int) && i <= j <= v@.len(),
            None => parse_lit(v@, i as int, lit@) is None,
        },
{
    let j = skip_ws_exec(v, i);
    let n = lit.unicode_len();
    if n > v.len() - j {
        return None;
    }
    let mut k: usize = 0;
    while k < n
        invariant
            k <= n,
            n == lit@.len(),
            i <= j,
            j + n <= v@.len(),
            v@.len() <= usize::MAX as int,
            j as int == skip_ws(v@, i as int),
            forall|x: int| 0 <= x < k ==> v@[j + x] == lit@[x],
        decreases n - k,
    {
        if v[j + k] != lit.get_char(k) {
            proof {
                assert(v@.subrange(j as int, j + n as int)[k as int] != lit@[k as int]);
            }
            return None;
        }
        k = k + 1;
    }
    proof {
        assert(v@.subrange(j as int, j + n as int) =~= lit@);
    }
    Some(j + n)
}

/// The body of a quoted string.
fn parse_str_body_exec(v: &Vec<char>, i: usize) -> (r: Option<(Vec<char>, usize)>)
    requires
        i <= v@.len(),
    ensures
        match r {
            Some((t, j)) => parse_str_body(v@, i as int) == Some((t@, j as int)) && i < j
                <= v@.len(),
            None => parse_str_body(v@, i as int) is None,
        },
    decreases v@.len() - i,
{
    if i >= v.len() {
        return None;
    }
    let c = v[i];
    if c == '"' {
        let t: Vec<char> = Vec::new();
        proof {
            assert(t@ =~= Seq::<char>::empty());
        }
        Some((t, i + 1))
    } else if c == '\\' {
        if i + 1 < v.len() && (v[i + 1] == '"' || v[i + 1] == '\\') {
            let e = v[i + 1];
            match parse_str_body_exec(v, i + 2) {
                Some((mut t, j)) => {
                    let ghost t0 = t@;
                    t.insert(0, e);
                    proof {
                        assert(t@ =~= seq![v@[i + 1]] + t0);
                    }
                    Some((t, j))
                },
                None => None,
            }
        } else {
            None
        }
    } else {
        match parse_str_body_exec(v, i + 1) {
            Some((mut t, j)) => {
                let ghost t0 = t@;
                t.insert(0, c);
                proof {
                    assert(t@ =~= seq![v@[i as int]] + t0);
                }
                Some((t, j))
            },
            None => None,
        }
    }
}

/// A quoted string after whitespace.
fn parse_string_exec(v: &Vec<char>, i: usize) -> (r: Option<(Vec<char>, usize)>)
    requires
        i <= v@.len(),
    ensures
        match r {
            Some((t, j)) => parse_string_at(v@, i as int) == Some((t@, j as int)) && i < j
                <= v@.len(),
            None => parse_string_at(v@, i as int) is None,
        },
{
    let j = skip_ws_exec(v, i);
    if j < v.len() && v[j] == '"' {
        parse_str_body_exec(v, j + 1)
    } else {
        None
    }
}

/// The folded digit value never shrinks as more digits are consumed.
proof fn lemma_parse_digits_ge(s: Seq<char>, i: int, acc: int)
    requires
        acc >= 0,
    ensures
        parse_digits(s, i, acc).0 >= acc,
        parse_digits(s, i, acc).1 >= i,
    decreases s.len() - i,
{
    if 0 <= i < s.len() && is_digit(s[i]) {
        lemma_parse_digits_ge(s, i + 1, acc * 10 + digit_val(s[i]));
    }
}

/// Greedily consume digits; overflow past the unsigned 64-bit range
/// is reported as failure.
fn parse_digits_exec(v: &Vec<char>, i: usize, acc: u64) -> (r: Option<(u64, usize)>)
    requires
        i <= v@.len(),
    ensures
        match r {
            Some((val, j)) => parse_digits(v@, i as int, acc as int) == (val as int, j as int)
                && i <= j <= v@.len(),
            None => parse_digits(v@, i as int, acc as int).0 > u64::MAX as int,
        },
    decreases v@.len() - i,
{
    if i < v.len() && is_digit_exec(v[i]) {
        let d = digit_val_exec(v[i]);
        if acc > (u64::MAX - d) / 10 {
            proof {
                let a = acc as int;
                let dd = d as int;
                let m = u64::MAX as int;
                assert(a * 10 + dd > m) by (nonlinear_arith)
                    requires
                        a > (m - dd) / 10,
                        0 <= dd < 10,
                        a >= 0,
                        m > 10,
                ;
                lemma_parse_digits_ge(v@, i + 1 as int, a * 10 + dd);
            }
            None
        } else {
            proof {
                let a = acc as int;
                let dd = d as int;
                let m = u64::MAX as int;
                assert(a * 10 + dd <= m) by (nonlinear_arith)
                    requires
                        a <= (m - dd) / 10,
                        0 <= dd < 10,
                        a >= 0,
                ;
            }
            parse_digits_exec(v, i + 1, acc * 10 + d)
        }
    } else {
        Some((acc, i))
    }
}

/// A signed 64-bit decimal integer after whitespace.
fn parse_int_exec(v: &Vec<char>, i: usize) -> (r: Option<(i64, usize)>)
    requires
        i <= v@.len(),
    ensures
        match r {
            Some((n, j)) => parse_int_at(v@, i as int) == Some((n as int, j as int)) && i <= j
                <= v@.len(),
            None => parse_int_at(v@, i as int) is None,
        },
{
    let j = skip_ws_exec(v, i);
    if j < v.len() && v[j] == '-' {
        if j + 1 < v.len() && is_digit_exec(v[j + 1]) {
            match parse_digits_exec(v, j + 1, 0) {
                Some((d, k)) => {
                    if d <= 0x7fffffffffffffff {
                        Some((-(d as i64), k))
                    } else if d == 0x8000000000000000 {
                        Some((i64::MIN, k))
                    } else {
                        None
                    }
                },
                None => None,
            }
        } else {
            None
        }
    } else if j < v.len() && is_digit_exec(v[j]) {
        match parse_digits_exec(v, j, 0) {
            Some((d, k)) => {
                if d <= 0x7fffffffffffffff {
                    Some((d as i64, k))
                } else {
                    None
                }
            },
            None => None,
        }
    } else {
        None
    }
}

/// A JSON boolean after whitespace.
fn parse_bool_exec(v: &Vec<char>, i: usize) -> (r: Option<(bool, usize)>)
    requires
        i <= v@.len(),
    ensures
        match r {
            Some((b, j)) => parse_bool_at(v@, i as int) == Some((b, j as int)) && i <= j
                <= v@.len(),
            None => parse_bool_at(v@, i as int) is None,
        },
{
    match parse_lit_exec(v, i, "true") {
        Some(j) => Some((true, j)),
        None => match parse_lit_exec(v, i, "false") {
            Some(j) => Some((false, j)),
            None => None,
        },
    }
}

/// A variable object.
fn parse_var_exec(v: &Vec<char>, i: usize) -> (r: Option<(crate::models::EnvVariable, usize)>)
    requires
        i <= v@.len(),
    ensures
        match r {
            Some((var, j)) => parse_var_at(v@, i as int) == Some((var@, j as int)) && i <= j
                <= v@.len(),
            None => parse_var_at(v@, i as int) is None,
        },
{
    let j0 = match parse_lit_exec(v, i, "{") {
        Some(j) => j,
        None => {
            return None;
        },
    };
    let j1 = match parse_lit_exec(v, j0, "\"value\":") {
        Some(j) => j,
        None => {
            return None;
        },
    };
    let (val, j2) = match parse_string_exec(v, j1) {
        Some(p) => p,
        None => {
            return None;
        },
    };
    let j2b = match parse_lit_exec(v, j2, ",") {
        Some(j) => j,
        None => {
            return None;
        },
    };
    let j3 = match parse_lit_exec(v, j2b, "\"encrypted\":") {
        Some(j) => j,
        None => {
            return None;
        },
    };
    let (enc, j4) = match parse_bool_exec(v, j3) {
        Some(p) => p,
        None => {
            return None;
        },
    };
    let j4b = match parse_lit_exec(v, j4, ",") {
        Some(j) => j,
        None => {
            return None;
        },
    };
    let j5 = match parse_lit_exec(v, j4b, "\"created_at\":") {
        Some(j) => j,
        None => {
            return None;
        },
    };
    let (ca, j6) = match parse_int_exec(v, j5) {
        Some(p) => p,
        None => {
            return None;
        },
    };
    let j6b = match parse_lit_exec(v, j6, ",") {
        Some(j) => j,
        None => {
            return None;
        },
    };
    let j7 = match parse_lit_exec(v, j6b, "\"updated_at\":") {
        Some(j) => j,
        None => {
            return None;
        },
    };
    let (ua, j8) = match parse_int_exec(v, j7) {
        Some(p) => p,
        None => {
            return None;
        },
    };
    let j9 = match parse_lit_exec(v, j8, "}") {
        Some(j) => j,
        None => {
            return None;
        },
    };
    let var = crate::models::EnvVariable {
        value: chars_to_string(val),
        encrypted: enc,
        created_at: ca,
        updated_at: ua,
    };
    Some((var, j9))
}

/// Well-formedness of parsed environment entries: unique environment
/// names and unique keys within each environment.
pub open spec fn envs_entries_wf(s: Seq<(Seq<char>, EnvRec)>) -> bool {
    crate::models::kv_unique(s) && (forall|x: int|
        0 <= x < s.len() ==> crate::models::kv_unique((#[trigger] s[x]).1))
}

/// Whether an environment already binds the key.
fn env_key_taken(e: &crate::models::Environment, k: &str) -> (r: bool)
    ensures
        r == crate::models::kv_has(crate::models::var_rec(e@), k@),
{
    let mut x: usize = 0;
    while x < e.len()
        invariant
            x <= e@.len(),
            forall|y: int| 0 <= y < x ==> (#[trigger] e@[y]).0@ != k@,
        decreases e@.len() - x,
    {
        if crate::models::str_eq(e[x].0.as_str(), k) {
            proof {
                assert(crate::models::var_rec(e@)[x as int].0 == k@);
            }
            return true;
        }
        x = x + 1;
    }
    proof {
        assert(forall|y: int|
            0 <= y < e@.len() ==> (#[trigger] crate::models::var_rec(e@)[y]).0 == e@[y].0@);
    }
    false
}

/// Whether an environments list already binds the name.
fn envs_key_taken(v: &Vec<(String, crate::models::Environment)>, k: &str) -> (r: bool)
    ensures
        r == crate::models::kv_has(crate::models::env_rec(v@), k@),
{
    let mut x: usize = 0;
    while x < v.len()
        invariant
            x <= v@.len(),
            forall|y: int| 0 <= y < x ==> (#[trigger] v@[y]).0@ != k@,
        decreases v@.len() - x,
    {
        if crate::models::str_eq(v[x].0.as_str(), k) {
            proof {
                assert(crate::models::env_rec(v@)[x as int].0 == k@);
            }
            return true;
        }
        x = x + 1;
    }
    proof {
        assert(forall|y: int|
            0 <= y < v@.len() ==> (#[trigger] crate::models::env_rec(v@)[y]).0 == v@[y].0@);
    }
    false
}

/// Whether a projects list already holds the name.
fn projs_key_taken(v: &Vec<crate::models::Project>, k: &str) -> (r: bool)
    ensures
        r == crate::models::kv_has(crate::models::proj_entries(v@), k@),
{
    let mut x: usize = 0;
    while x < v.len()
        invariant
            x <= v@.len(),
            forall|y: int| 0 <= y < x ==> (#[trigger] v@[y]).name@ != k@,
        decreases v@.len() - x,
    {
        if crate::models::str_eq(v[x].name.as_str(), k) {
            proof {
                assert(crate::models::proj_entries(v@)[x as int].0 == k@);
            }
            return true;
        }
        x = x + 1;
    }
    proof {
        assert(forall|y: int|
            0 <= y < v@.len() ==> (#[trigger] crate::models::proj_entries(v@)[y]).0
                == v@[y].name@);
    }
    false
}

/// The remaining entries of an environment object.
fn parse_env_more_exec(v: &Vec<char>, i: usize, acc: crate::models::Environment) -> (r: Option<
    (crate::models::Environment, usize),
>)
    requires
        i <= v@.len(),
    ensures
        match r {
            Some((e, j)) => parse_env_more_at(v@, i as int, crate::models::var_rec(acc@))
                == Some((crate::models::var_rec(e@), j as int)) && j <= v@.len() && (
            crate::models::kv_unique(crate::models::var_rec(acc@))
                ==> crate::models::kv_unique(crate::models::var_rec(e@))),
            None => parse_env_more_at(v@, i as int, crate::models::var_rec(acc@)) is None,
        },
    decreases v@.len() - i,
{
    let j = skip_ws_exec(v, i);
    if j < v.len() && v[j] == ',' {
        let (kc, j2) = match parse_string_exec(v, j + 1) {
            Some(p) => p,
            None => {
                return None;
            },
        };
        let j3 = match parse_lit_exec(v, j2, ":") {
            Some(p) => p,
            None => {
                return None;
            },
        };
        let (var, j4) = match parse_var_exec(v, j3) {
            Some(p) => p,
            None => {
                return None;
            },
        };
        let ks = chars_to_string(kc);
        if env_key_taken(&acc, ks.as_str()) {
            return None;
        }
        if j4 > i {
            let ghost accrec = crate::models::var_rec(acc@);
            let ghost kg = ks@;
            let ghost vg = var@;
            let mut acc2 = acc;
            acc2.push((ks, var));
            proof {
                assert(crate::models::var_rec(acc2@) =~= accrec.push((kg, vg)));
                if crate::models::kv_unique(accrec) {
                    crate::models::lemma_kv_add(accrec, kg, vg);
                }
            }
            parse_env_more_exec(v, j4, acc2)
        } else {
            None
        }
    } else if j < v.len() && v[j] == '}' {
        Some((acc, j + 1))
    } else {
        None
    }
}

/// An environment object.
fn parse_env_exec(v: &Vec<char>, i: usize) -> (r: Option<(crate::models::Environment, usize)>)
    requires
        i <= v@.len(),
    ensures
        match r {
            Some((e, j)) => parse_env_at(v@, i as int) == Some(
                (crate::models::var_rec(e@), j as int),
            ) && j <= v@.len() && crate::models::kv_unique(crate::models::var_rec(e@)),
            None => parse_env_at(v@, i as int) is None,
        },
{
    let j = match parse_lit_exec(v, i, "{") {
        Some(p) => p,
        None => {
            return None;
        },
    };
    let j2 = skip_ws_exec(v, j);
    if j2 < v.len() && v[j2] == '}' {
        let e: crate::models::Environment = Vec::new();
        proof {
            assert(crate::models::var_rec(e@) =~= Seq::<(Seq<char>, VarModel)>::empty());
        }
        return Some((e, j2 + 1));
    }
    let (kc, j3) = match parse_string_exec(v, j) {
        Some(p) => p,
        None => {
            return None;
        },
    };
    let j4 = match parse_lit_exec(v, j3, ":") {
        Some(p) => p,
        None => {
            return None;
        },
    };
    let (var, j5) = match parse_var_exec(v, j4) {
        Some(p) => p,
        None => {
            return None;
        },
    };
    let ks = chars_to_string(kc);
    let ghost kg = ks@;
    let ghost vg = var@;
    let mut acc: crate::models::Environment = Vec::new();
    acc.push((ks, var));
    proof {
        assert(crate::models::var_rec(acc@) =~= seq![(kg, vg)]);
    }
    parse_env_more_exec(v, j5, acc)
}

/// The remaining entries of an environments object.
fn parse_envs_more_exec(
    v: &Vec<char>,
    i: usize,
    acc: Vec<(String, crate::models::Environment)>,
) -> (r: Option<(Vec<(String, crate::models::Environment)>, usize)>)
    requires
        i <= v@.len(),
    ensures
        match r {
            Some((e, j)) => parse_envs_more_at(v@, i as int, crate::models::env_rec(acc@))
                == Some((crate::models::env_rec(e@), j as int)) && j <= v@.len() && (
            envs_entries_wf(crate::models::env_rec(acc@)) ==> envs_entries_wf(
                crate::models::env_rec(e@),
            )),
            None => parse_envs_more_at(v@, i as int, crate::models::env_rec(acc@)) is None,
        },
    decreases v@.len() - i,
{
    let j = skip_ws_exec(v, i);
    if j < v.len() && v[j] == ',' {
        let (kc, j2) = match parse_string_exec(v, j + 1) {
            Some(p) => p,
            None => {
                return None;
            },
        };
        let j3 = match parse_lit_exec(v, j2, ":") {
            Some(p) => p,
            None => {
                return None;
            },
        };
        let (env, j4) = match parse_env_exec(v, j3) {
            Some(p) => p,
            None => {
                return None;
            },
        };
        let ks = chars_to_string(kc);
        if envs_key_taken(&acc, ks.as_str()) {
            return None;
        }
        if j4 > i {
            let ghost accrec = crate::models::env_rec(acc@);
            let ghost kg = ks@;
            let ghost vg = crate::models::var_rec(env@);
            let mut acc2 = acc;
            acc2.push((ks, env));
            proof {
                assert(crate::models::env_rec(acc2@) =~= accrec.push((kg, vg)));
                if envs_entries_wf(accrec) {
                    crate::models::lemma_kv_add(accrec, kg, vg);
                    let t = accrec.push((kg, vg));
                    assert forall|x: int| 0 <= x < t.len() implies crate::models::kv_unique(
                        (#[trigger] t[x]).1,
                    ) by {
                        if x < t.len() - 1 {
                            assert(t[x] == accrec[x]);
                        }
                    }
                }
            }
            parse_envs_more_exec(v, j4, acc2)
        } else {
            None
        }
    } else if j < v.len() && v[j] == '}' {
        Some((acc, j + 1))
    } else {
        None
    }
}

/// An environments object.
fn parse_envs_exec(v: &Vec<char>, i: usize) -> (r: Option<
    (Vec<(String, crate::models::Environment)>, usize),
>)
    requires
        i <= v@.len(),
    ensures
        match r {
            Some((e, j)) => parse_envs_at(v@, i as int) == Some(
                (crate::models::env_rec(e@), j as int),
            ) && j <= v@.len() && envs_entries_wf(crate::models::env_rec(e@)),
            None => parse_envs_at(v@, i as int) is None,
        },
{
    let j = match parse_lit_exec(v, i, "{") {
        Some(p) => p,
        None => {
            return None;
        },
    };
    let j2 = skip_ws_exec(v, j);
    if j2 < v.len() && v[j2] == '}' {
        let e: Vec<(String, crate::models::Environment)> = Vec::new();
        proof {
            assert(crate::models::env_rec(e@) =~= Seq::<(Seq<char>, EnvRec)>::empty());
        }
        return Some((e, j2 + 1));
    }
    let (kc, j3) = match parse_string_exec(v, j) {
        Some(p) => p,
        None => {
            return None;
        },
    };
    let j4 = match parse_lit_exec(v, j3, ":") {
        Some(p) => p,
        None => {
            return None;
        },
    };
    let (env, j5) = match parse_env_exec(v, j4) {
        Some(p) => p,
        None => {
            return None;
        },
    };
    let ks = chars_to_string(kc);
    let ghost kg = ks@;
    let ghost vg = crate::models::var_rec(env@);
    let mut acc: Vec<(String, crate::models::Environment)> = Vec::new();
    acc.push((ks, env));
    proof {
        assert(crate::models::env_rec(acc@) =~= seq![(kg, vg)]);
    }
    parse_envs_more_exec(v, j5, acc)
}

/// A description value.
fn parse_description_exec(v: &Vec<char>, i: usize) -> (r: Option<(Option<String>, usize)>)
    requires
        i <= v@.len(),
    ensures
        match r {
            Some((d, j)) => parse_description_at(v@, i as int) == Some(
                (d.deep_view(), j as int),
            ) && j <= v@.len(),
            None => parse_description_at(v@, i as int) is None,
        },
{
    let j = skip_ws_exec(v, i);
    if j < v.len() && v[j] == 'n' {
        match parse_lit_exec(v, j, "null") {
            Some(j2) => {
                let d: Option<String> = None;
                proof {
                    assert(d.deep_view() == Option::<Seq<char>>::None);
                }
                Some((d, j2))
            },
            None => None,
        }
    } else {
        match parse_string_exec(v, j) {
            Some((dc, j2)) => {
                let d = Some(chars_to_string(dc));
                Some((d, j2))
            },
            None => None,
        }
    }
}

/// A project object.
fn parse_proj_exec(v: &Vec<char>, i: usize) -> (r: Option<(crate::models::Project, usize)>)
    requires
        i <= v@.len(),
    ensures
        match r {
            Some((p, j)) => parse_proj_at(v@, i as int) == Some(
                (crate::models::proj_rec(p), j as int),
            ) && j <= v@.len() && crate::models::proj_rec_wf(crate::models::proj_rec(p)),
            None => parse_proj_at(v@, i as int) is None,
        },
{
    let j0 = match parse_lit_exec(v, i, "{") {
        Some(p) => p,
        None => {
            return None;
        },
    };
    let j1 = match parse_lit_exec(v, j0, "\"id\":") {
        Some(p) => p,
        None => {
            return None;
        },
    };
    let (idc, j2) = match parse_string_exec(v, j1) {
        Some(p) => p,
        None => {
            return None;
        },
    };
    let j2b = match parse_lit_exec(v, j2, ",") {
        Some(p) => p,
        None => {
            return None;
        },
    };
    let j3 = match parse_lit_exec(v, j2b, "\"name\":") {
        Some(p) => p,
        None => {
            return None;
        },
    };
    let (namec, j4) = match parse_string_exec(v, j3) {
        Some(p) => p,
        None => {
            return None;
        },
    };
    let j4b = match parse_lit_exec(v, j4, ",") {
        Some(p) => p,
        None => {
            return None;
        },
    };
    let j5 = match parse_lit_exec(v, j4b, "\"description\":") {
        Some(p) => p,
        None => {
            return None;
        },
    };
    let (desc, j6) = match parse_description_exec(v, j5) {
        Some(p) => p,
        None => {
            return None;
        },
    };
    let j6b = match parse_lit_exec(v, j6, ",") {
        Some(p) => p,
        None => {
            return None;
        },
    };
    let j7 = match parse_lit_exec(v, j6b, "\"environments\":") {
        Some(p) => p,
        None => {
            return None;
        },
    };
    let (envs, j8) = match parse_envs_exec(v, j7) {
        Some(p) => p,
        None => {
            return None;
        },
    };
    let j8b = match parse_lit_exec(v, j8, ",") {
        Some(p) => p,
        None => {
            return None;
        },
    };
    let j9 = match parse_lit_exec(v, j8b, "\"created_at\":") {
        Some(p) => p,
        None => {
            return None;
        },
    };
    let (ca, j10) = match parse_int_exec(v, j9) {
        Some(p) => p,
        None => {
            return None;
        },
    };
    let j10b = match parse_lit_exec(v, j10, ",") {
        Some(p) => p,
        None => {
            return None;
        },
    };
    let j11 = match parse_lit_exec(v, j10b, "\"updated_at\":") {
        Some(p) => p,
        None => {
            return None;
        },
    };
    let (ua, j12) = match parse_int_exec(v, j11) {
        Some(p) => p,
        None => {
            return None;
        },
    };
    let j13 = match parse_lit_exec(v, j12, "}") {
        Some(p) => p,
        None => {
            return None;
        },
    };
    let p = crate::models::Project {
        id: chars_to_string(idc),
        name: chars_to_string(namec),
        description: desc,
        environments: envs,
        created_at: ca,
        updated_at: ua,
    };
    Some((p, j13))
}

/// The remaining entries of the projects object.
fn parse_projs_more_exec(v: &Vec<char>, i: usize, acc: Vec<crate::models::Project>) -> (r: Option<
    (Vec<crate::models::Project>, usize),
>)
    requires
        i <= v@.len(),
    ensures
        match r {
            Some((ps, j)) => parse_projs_more_at(
                v@,
                i as int,
                crate::models::proj_entries(acc@),
            ) == Some((crate::models::proj_entries(ps@), j as int)) && j <= v@.len() && (
            crate::models::db_rec_wf(
                DbRec {
                    projects: crate::models::proj_entries(acc@),
                    version: Seq::empty(),
                    last_backup: 0,
                },
            ) ==> crate::models::db_rec_wf(
                DbRec {
                    projects: crate::models::proj_entries(ps@),
                    version: Seq::empty(),
                    last_backup: 0,
                },
            )),
            None => parse_projs_more_at(v@, i as int, crate::models::proj_entries(acc@)) is None,
        },
    decreases v@.len() - i,
{
    let j = skip_ws_exec(v, i);
    if j < v.len() && v[j] == ',' {
        let (kc, j2) = match parse_string_exec(v, j + 1) {
            Some(p) => p,
            None => {
                return None;
            },
        };
        let j3 = match parse_lit_exec(v, j2, ":") {
            Some(p) => p,
            None => {
                return None;
            },
        };
        let (p, j4) = match parse_proj_exec(v, j3) {
            Some(p) => p,
            None => {
                return None;
            },
        };
        let ks = chars_to_string(kc);
        if projs_key_taken(&acc, ks.as_str()) || !crate::models::str_eq(
            ks.as_str(),
            p.name.as_str(),
        ) {
            return None;
        }
        if j4 > i {
            let ghost accrec = crate::models::proj_entries(acc@);
            let ghost kg = ks@;
            let ghost pg = crate::models::proj_rec(p);
            let mut acc2 = acc;
            acc2.push(p);
            proof {
                assert(crate::models::proj_entries(acc2@) =~= accrec.push((kg, pg)));
                if crate::models::db_rec_wf(
                    DbRec { projects: accrec, version: Seq::empty(), last_backup: 0 },
                ) {
                    crate::models::lemma_kv_add(accrec, kg, pg);
                    let t = accrec.push((kg, pg));
                    assert forall|x: int| 0 <= x < t.len() implies (#[trigger] t[x]).1.name
                        == t[x].0 && crate::models::proj_rec_wf(t[x].1) by {
                        if x < t.len() - 1 {
                            assert(t[x] == accrec[x]);
                        }
                    }
                }
            }
            parse_projs_more_exec(v, j4, acc2)
        } else {
            None
        }
    } else if j < v.len() && v[j] == '}' {
        Some((acc, j + 1))
    } else {
        None
    }
}

/// The projects object.
fn parse_projs_exec(v: &Vec<char>, i: usize) -> (r: Option<(Vec<crate::models::Project>, usize)>)
    requires
        i <= v@.len(),
    ensures
        match r {
            Some((ps, j)) => parse_projs_at(v@, i as int) == Some(
                (crate::models::proj_entries(ps@), j as int),
            ) && j <= v@.len() && crate::models::db_rec_wf(
                DbRec {
                    projects: crate::models::proj_entries(ps@),
                    version: Seq::empty(),
                    last_backup: 0,
                },
            ),
            None => parse_projs_at(v@, i as int) is None,
        },
{
    let j = match parse_lit_exec(v, i, "{") {
        Some(p) => p,
        None => {
            return None;
        },
    };
    let j2 = skip_ws_exec(v, j);
    if j2 < v.len() && v[j2] == '}' {
        let e: Vec<crate::models::Project> = Vec::new();
        proof {
            assert(crate::models::proj_entries(e@) =~= Seq::<(Seq<char>, ProjRec)>::empty());
        }
        return Some((e, j2 + 1));
    }
    let (kc, j3) = match parse_string_exec(v, j) {
        Some(p) => p,
        None => {
            return None;
        },
    };
    let j4 = match parse_lit_exec(v, j3, ":") {
        Some(p) => p,
        None => {
            return None;
        },
    };
    let (p, j5) = match parse_proj_exec(v, j4) {
        Some(p) => p,
        None => {
            return None;
        },
    };
    let ks = chars_to_string(kc);
    if !crate::models::str_eq(ks.as_str(), p.name.as_str()) {
        return None;
    }
    let ghost kg = ks@;
    let ghost pg = crate::models::proj_rec(p);
    let mut acc: Vec<crate::models::Project> = Vec::new();
    acc.push(p);
    proof {
        assert(crate::models::proj_entries(acc@) =~= seq![(kg, pg)]);
    }
    parse_projs_more_exec(v, j5, acc)
}

/// Parse the whole backing document, rejecting trailing content. The
/// resulting aggregate is always well-formed.
pub fn parse_database(text: &str) -> (r: Result<crate::models::Database, AppError>)
    ensures
        match r {
            Ok(db) => spec_parse_database(text@) == Some(crate::models::db_rec(db)) && db.wf(),
            Err(e) => spec_parse_database(text@) is None && (e matches AppError::JsonError(m)
                && m@ == "invalid database document"@),
        },
{
    let v = str_to_chars(text);
    let r = parse_database_chars(&v);
    match r {
        Some(db) => Ok(db),
        None => Err(AppError::JsonError("invalid database document".to_owned())),
    }
}

/// Parse the document from its characters.
fn parse_database_chars(v: &Vec<char>) -> (r: Option<crate::models::Database>)
    ensures
        match r {
            Some(db) => spec_parse_database(v@) == Some(crate::models::db_rec(db)) && db.wf(),
            None => spec_parse_database(v@) is None,
        },
{
    let j0 = match parse_lit_exec(v, 0, "{") {
        Some(p) => p,
        None => {
            return None;
        },
    };
    let j1 = match parse_lit_exec(v, j0, "\"projects\":") {
        Some(p) => p,
        None => {
            return None;
        },
    };
    let (ps, j2) = match parse_projs_exec(v, j1) {
        Some(p) => p,
        None => {
            return None;
        },
    };
    let j2b = match parse_lit_exec(v, j2, ",") {
        Some(p) => p,
        None => {
            return None;
        },
    };
    let j3 = match parse_lit_exec(v, j2b, "\"metadata\":") {
        Some(p) => p,
        None => {
            return None;
        },
    };
    let j3b = match parse_lit_exec(v, j3, "{") {
        Some(p) => p,
        None => {
            return None;
        },
    };
    let j4 = match parse_lit_exec(v, j3b, "\"version\":") {
        Some(p) => p,
        None => {
            return None;
        },
    };
    let (verc, j5) = match parse_string_exec(v, j4) {
        Some(p) => p,
        None => {
            return None;
        },
    };
    let j5b = match parse_lit_exec(v, j5, ",") {
        Some(p) => p,
        None => {
            return None;
        },
    };
    let j6 = match parse_lit_exec(v, j5b, "\"last_backup\":") {
        Some(p) => p,
        None => {
            return None;
        },
    };
    let (lb, j7) = match parse_int_exec(v, j6) {
        Some(p) => p,
        None => {
            return None;
        },
    };
    let j8 = match parse_lit_exec(v, j7, "}") {
        Some(p) => p,
        None => {
            return None;
        },
    };
    let j9 = match parse_lit_exec(v, j8, "}") {
        Some(p) => p,
        None => {
            return None;
        },
    };
    if skip_ws_exec(v, j9) != v.len() {
        return None;
    }
    let db = crate::models::Database {
        projects: ps,
        metadata: crate::models::Metadata { version: chars_to_string(verc), last_backup: lb },
    };
    Some(db)
}

/// Serialize the whole aggregate to its backing-file text.
pub fn render_database(db: &crate::models::Database) -> (r: String)
    ensures
        r@ == render_db_rec(crate::models::db_rec(*db)),
{
    let mut s = "{\"projects\":".to_owned();
    s.append(render_projs_exec(&db.projects).as_str());
    s.append(",\"metadata\":{\"version\":");
    s.append(render_string_exec(db.metadata.version.as_str()).as_str());
    s.append(",\"last_backup\":");
    s.append(render_int_exec(db.metadata.last_backup).as_str());
    s.append("}}");
    proof {
        assert(s@ =~= render_db_rec(crate::models::db_rec(*db)));
    }
    s
}

} // verus!
