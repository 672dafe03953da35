//! Variables in a container's configuration. A reference `@{name}` in a
//! text stands for the value of the variable `name`.

use crate::text::{chars_of, index_of, lemma_index_of_is, texts};
use vstd::prelude::*;
use vstd::string::*;

verus! {

/// The name under which every instance finds its own name.
pub const LITHOS_NAME: &'static str = "lithos:name";

/// The name under which every instance finds the file of its
/// configuration.
pub const LITHOS_CONFIG_FILENAME: &'static str = "lithos:config_filename";

/// The index in `vars` of the first variable named `name`, or the length
/// of `vars`.
pub open spec fn var_index(vars: Seq<(Seq<char>, Seq<char>)>, name: Seq<char>) -> int
    decreases vars.len(),
{
    if vars.len() == 0 {
        0
    } else if vars[0].0 == name {
        0
    } else {
        1 + var_index(vars.drop_first(), name)
    }
}

/// The value of the variable `name`: that of the first variable of `vars`
/// with this name.
pub open spec fn value_of(vars: Seq<(Seq<char>, Seq<char>)>, name: Seq<char>) -> Option<Seq<char>> {
    if 0 <= var_index(vars, name) < vars.len() {
        Some(vars[var_index(vars, name)].1)
    } else {
        None
    }
}

/// `var_index(vars, name)` is the first index at which a variable named
/// `name` stands.
pub proof fn lemma_var_index(vars: Seq<(Seq<char>, Seq<char>)>, name: Seq<char>)
    ensures
        0 <= var_index(vars, name) <= vars.len(),
        var_index(vars, name) < vars.len() ==> vars[var_index(vars, name)].0 == name,
        forall|i: int| 0 <= i < var_index(vars, name) ==> vars[i].0 != name,
    decreases vars.len(),
{
    if vars.len() > 0 && vars[0].0 != name {
        let t = vars.drop_first();
        lemma_var_index(t, name);
        assert forall|i: int| 0 <= i < var_index(vars, name) implies vars[i].0 != name by {
            if i > 0 {
                assert(vars[i] == t[i - 1]);
            }
        }
    }
}

/// What a text becomes when its references are replaced.
pub struct Expanded {
    /// The text, with the value of its variable in the place of each
    /// reference, and nothing in the place of a reference to a variable
    /// that there is not.
    pub text: Seq<char>,
    /// The names that were referred to without being variables, in the
    /// order of the references.
    pub unknown: Seq<Seq<char>>,
}

/// `text` with its references replaced. A reference begins with `@{` and
/// ends with the next `}`; what stands between them is the name. An `@{`
/// that no `}` follows stands for itself.
pub open spec fn expand(text: Seq<char>, vars: Seq<(Seq<char>, Seq<char>)>) -> Expanded
    decreases text.len(),
{
    if text.len() == 0 {
        Expanded { text: Seq::<char>::empty(), unknown: Seq::<Seq<char>>::empty() }
    } else if text.len() >= 2 && text[0] == '@' && text[1] == '{' {
        let rest = text.skip(2);
        let k = index_of(rest, '}');
        if 0 <= k < rest.len() {
            let tail = expand(rest.skip(k + 1), vars);
            match value_of(vars, rest.take(k)) {
                Some(value) => Expanded { text: value + tail.text, unknown: tail.unknown },
                None => Expanded {
                    text: tail.text,
                    unknown: seq![rest.take(k)] + tail.unknown,
                },
            }
        } else {
            Expanded { text, unknown: Seq::<Seq<char>>::empty() }
        }
    } else {
        let tail = expand(text.drop_first(), vars);
        Expanded { text: seq![text[0]] + tail.text, unknown: tail.unknown }
    }
}

/// The names and values of `vars` as text.
pub open spec fn vars_text(vars: Seq<(String, String)>) -> Seq<(Seq<char>, Seq<char>)> {
    Seq::new(vars.len(), |i: int| (vars[i].0@, vars[i].1@))
}

/// Finds the first variable named `name`.
pub fn find_var(vars: &Vec<(String, String)>, name: &String) -> (k: usize)
    ensures
        k == var_index(vars_text(vars@), name@),
        k <= vars@.len(),
{
    let mut k: usize = 0;
    while k < vars.len() && !(vars[k].0 == *name)
        invariant
            k <= vars.len(),
            forall|i: int| 0 <= i < k ==> vars_text(vars@)[i].0 != name@,
        decreases vars.len() - k,
    {
        k += 1;
    }
    proof {
        lemma_var_index(vars_text(vars@), name@);
        if k < vars.len() {
            assert(vars_text(vars@)[k as int].0 == name@);
        }
    }
    k
}

/// Replaces the references in `text` by the values of `vars`. Where a
/// reference names no variable, the names of all such references are
/// returned instead.
pub fn substitute(text: &str, vars: &Vec<(String, String)>) -> (r: Result<String, Vec<String>>)
    ensures
        match r {
            Ok(out) => expand(text@, vars_text(vars@)).unknown.len() == 0 && out@ == expand(
                text@,
                vars_text(vars@),
            ).text,
            Err(names) => names@.len() > 0 && texts(names@) == expand(
                text@,
                vars_text(vars@),
            ).unknown,
        },
{
    let ghost table = vars_text(vars@);
    let ghost whole = expand(text@, table);
    let v = chars_of(text);
    let mut out = String::new();
    let mut unknown: Vec<String> = Vec::new();
    let mut i: usize = 0;
    proof {
        assert(text@.skip(0) =~= text@);
        assert(out@ + whole.text =~= whole.text);
        assert(texts(unknown@) + whole.unknown =~= whole.unknown);
    }
    while i < v.len()
        invariant
            i <= v.len(),
            v@ == text@,
            table == vars_text(vars@),
            whole == expand(text@, table),
            whole.text == out@ + expand(text@.skip(i as int), table).text,
            whole.unknown == texts(unknown@) + expand(text@.skip(i as int), table).unknown,
        decreases v.len() - i,
    {
        let ghost here = text@.skip(i as int);
        let ghost done = out@;
        let ghost missed = texts(unknown@);
        if v[i] == '@' && v.len() - i >= 2 && v[i + 1] == '{' {
            let ghost rest = here.skip(2);
            let mut j: usize = i + 2;
            while j < v.len() && v[j] != '}'
                invariant
                    i + 2 <= j <= v.len(),
                    v@ == text@,
                    forall|k: int| i + 2 <= k < j ==> text@[k] != '}',
                decreases v.len() - j,
            {
                j += 1;
            }
            proof {
                assert(rest =~= text@.skip(i + 2));
                lemma_index_of_is(rest, '}', j - (i + 2));
            }
            if j < v.len() {
                let name = text.substring_char(i + 2, j).to_owned();
                proof {
                    assert(name@ =~= rest.take(j - (i + 2)));
                    assert(rest.skip(j - (i + 2) + 1) =~= text@.skip(j + 1));
                    lemma_var_index(table, name@);
                }
                let k = find_var(vars, &name);
                if k < vars.len() {
                    out.append(vars[k].1.as_str());
                    proof {
                        let tail = expand(text@.skip(j + 1), table);
                        assert(table[k as int].1 == vars@[k as int].1@);
                        assert(out@ + tail.text =~= done + (vars@[k as int].1@ + tail.text));
                    }
                } else {
                    unknown.push(name);
                    proof {
                        let tail = expand(text@.skip(j + 1), table);
                        assert(texts(unknown@) =~= missed.push(name@));
                        assert(texts(unknown@) + tail.unknown =~= missed + (seq![name@]
                            + tail.unknown));
                    }
                }
                i = j + 1;
            } else {
                let piece = text.substring_char(i, v.len());
                out.append(piece);
                proof {
                    assert(piece@ =~= here);
                    assert(text@.skip(v.len() as int) =~= Seq::<char>::empty());
                    assert(out@ + Seq::<char>::empty() =~= out@);
                    assert(missed + Seq::<Seq<char>>::empty() =~= missed);
                }
                i = v.len();
            }
        } else {
            let piece = text.substring_char(i, i + 1);
            out.append(piece);
            proof {
                assert(piece@ =~= seq![text@[i as int]]);
                assert(here.drop_first() =~= text@.skip(i + 1));
                assert(here[0] == text@[i as int]);
                if here.len() >= 2 {
                    assert(here[1] == text@[i + 1]);
                }
                let tail = expand(text@.skip(i + 1), table);
                assert(out@ + tail.text =~= done + (seq![text@[i as int]] + tail.text));
            }
            i += 1;
        }
    }
    proof {
        assert(text@.skip(v.len() as int) =~= Seq::<char>::empty());
        assert(out@ + Seq::<char>::empty() =~= out@);
        assert(texts(unknown@) + Seq::<Seq<char>>::empty() =~= texts(unknown@));
    }
    if unknown.len() == 0 {
        Ok(out)
    } else {
        Err(unknown)
    }
}

/// The variables of an instance: the user's, then the instance's name and
/// the file of its configuration. A user's variable hides a later one of
/// the same name.
pub fn instance_variables(user_vars: Vec<(String, String)>, name: &str, config_filename: &str) -> (vars:
    Vec<(String, String)>)
    ensures
        vars_text(vars@) == vars_text(user_vars@) + seq![
            (LITHOS_NAME@, name@),
            (LITHOS_CONFIG_FILENAME@, config_filename@),
        ],
{
    let ghost given = vars_text(user_vars@);
    let mut vars = user_vars;
    vars.push((LITHOS_NAME.to_owned(), name.to_owned()));
    vars.push((LITHOS_CONFIG_FILENAME.to_owned(), config_filename.to_owned()));
    assert(vars_text(vars@) =~= given + seq![
        (LITHOS_NAME@, name@),
        (LITHOS_CONFIG_FILENAME@, config_filename@),
    ]);
    vars
}

} // verus!
