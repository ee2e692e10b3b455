//! The format of a file of environment variables.

use crate::text::{
    chars_of, holds_text, lemma_push_contains, lines_of, split_first, split_once, text_lines,
    text_of, trim, trimmed, views,
};
use vstd::prelude::*;

verus! {

/// A text without a leading `export `.
pub open spec fn without_export(s: Seq<char>) -> Seq<char> {
    let word = "export "@;
    if s.len() >= word.len() && s.take(word.len() as int) == word {
        s.skip(word.len() as int)
    } else {
        s
    }
}

/// A value without the quotes around it, where it stands in a pair of the same quotes.
pub open spec fn unquoted(s: Seq<char>) -> Seq<char> {
    if s.len() >= 2 && s[0] == s.last() && (s[0] == '"' || s[0] == '\'') {
        s.subrange(1, s.len() - 1)
    } else {
        s
    }
}

/// The variable and the value that a line sets, where it sets one: not a blank line, nor a comment,
/// nor one without an equals sign or without a name before it.
pub open spec fn assignment(line: Seq<char>) -> Option<(Seq<char>, Seq<char>)> {
    let l = trimmed(line);
    if l.len() == 0 || l[0] == '#' {
        None
    } else {
        match split_first(without_export(l), '=') {
            None => None,
            Some((key, value)) => if trimmed(key).len() == 0 {
                None
            } else {
                Some((trimmed(key), unquoted(trimmed(value))))
            },
        }
    }
}

/// The assignments of lines, in their order.
pub open spec fn assignments(lines: Seq<Seq<char>>) -> Seq<(Seq<char>, Seq<char>)>
    decreases lines.len(),
{
    if lines.len() == 0 {
        Seq::empty()
    } else {
        let before = assignments(lines.drop_last());
        match assignment(lines.last()) {
            Some(a) => before.push(a),
            None => before,
        }
    }
}

/// The views of pairs of texts.
pub open spec fn pair_views(v: Seq<(String, String)>) -> Seq<(Seq<char>, Seq<char>)> {
    Seq::new(v.len(), |i: int| (v[i].0@, v[i].1@))
}

/// The view of an optional pair of texts.
pub open spec fn opt_pair(v: Option<(String, String)>) -> Option<(Seq<char>, Seq<char>)> {
    match v {
        Some((a, b)) => Some((a@, b@)),
        None => None,
    }
}

fn drop_export(s: &str) -> (r: String)
    ensures
        r@ == without_export(s@),
{
    let v: Vec<char> = chars_of(s);
    proof {
        reveal_strlit("export ");
    }
    if v.len() >= 7 && v[0] == 'e' && v[1] == 'x' && v[2] == 'p' && v[3] == 'o' && v[4] == 'r'
        && v[5] == 't' && v[6] == ' ' {
        proof {
            assert(s@.take(7) =~= "export "@);
            assert(s@.subrange(7, s@.len() as int) =~= s@.skip(7));
        }
        text_of(&v, 7, v.len())
    } else {
        proof {
            if s@.len() >= 7 && s@.take(7) == "export "@ {
                assert(s@.take(7)[0] == 'e' && s@.take(7)[1] == 'x' && s@.take(7)[2] == 'p'
                    && s@.take(7)[3] == 'o' && s@.take(7)[4] == 'r' && s@.take(7)[5] == 't'
                    && s@.take(7)[6] == ' ');
            }
        }
        s.to_owned()
    }
}

fn unquote(s: &str) -> (r: String)
    ensures
        r@ == unquoted(s@),
{
    let v: Vec<char> = chars_of(s);
    if v.len() >= 2 && v[0] == v[v.len() - 1] && (v[0] == '"' || v[0] == '\'') {
        text_of(&v, 1, v.len() - 1)
    } else {
        s.to_owned()
    }
}

/// The variable and the value that a line sets, where it sets one.
pub fn parse_line(line: &str) -> (r: Option<(String, String)>)
    ensures
        opt_pair(r) == assignment(line@),
{
    let l: String = trim(line);
    let v: Vec<char> = chars_of(l.as_str());
    if v.len() == 0 || v[0] == '#' {
        return None;
    }
    let bare: String = drop_export(l.as_str());
    match split_once(bare.as_str(), '=') {
        None => None,
        Some((key, value)) => {
            let name: String = trim(key.as_str());
            if chars_of(name.as_str()).len() == 0 {
                return None;
            }
            let text: String = trim(value.as_str());
            Some((name, unquote(text.as_str())))
        },
    }
}

/// The assignments of a file, in the order of its lines.
pub fn load_dotenv(contents: &str) -> (r: Vec<(String, String)>)
    ensures
        pair_views(r@) == assignments(text_lines(contents@)),
{
    let lines: Vec<String> = lines_of(contents);
    let ghost all = text_lines(contents@);
    let mut out: Vec<(String, String)> = Vec::new();
    let mut i: usize = 0;
    proof {
        assert(pair_views(out@) =~= assignments(all.take(0)));
    }
    while i < lines.len()
        invariant
            i <= lines@.len(),
            crate::text::views(lines@) == all,
            pair_views(out@) == assignments(all.take(i as int)),
        decreases lines@.len() - i,
    {
        proof {
            assert(all.take(i + 1).drop_last() =~= all.take(i as int));
            assert(all[i as int] == lines@[i as int]@);
        }
        if let Some(pair) = parse_line(lines[i].as_str()) {
            let ghost before = out@;
            let ghost view = (pair.0@, pair.1@);
            out.push(pair);
            proof {
                assert(pair_views(out@) =~= pair_views(before).push(view));
            }
        }
        i += 1;
    }
    proof {
        assert(all.take(all.len() as int) =~= all);
    }
    out
}

// ---------------------------------------------------------------------------
// The environment
// ---------------------------------------------------------------------------

/// The names that assignments are made to.
pub open spec fn names(a: Seq<(Seq<char>, Seq<char>)>) -> Seq<Seq<char>> {
    Seq::new(a.len(), |i: int| a[i].0)
}

/// The assignments that count: the first to each name that is not set already.
pub open spec fn first_unset(
    a: Seq<(Seq<char>, Seq<char>)>,
    set: Seq<Seq<char>>,
) -> Seq<(Seq<char>, Seq<char>)>
    decreases a.len(),
{
    if a.len() == 0 {
        a
    } else {
        let before = first_unset(a.drop_last(), set);
        if set.contains(a.last().0) || names(before).contains(a.last().0) {
            before
        } else {
            before.push(a.last())
        }
    }
}

/// The variables that a file sets in an environment in which the names in `already_set` are set: a
/// variable that is set, in the environment or by an earlier line, is left alone.
pub fn new_variables(contents: &str, already_set: &Vec<String>) -> (r: Vec<(String, String)>)
    ensures
        pair_views(r@) == first_unset(assignments(text_lines(contents@)), views(already_set@)),
{
    let pairs: Vec<(String, String)> = load_dotenv(contents);
    let ghost all = assignments(text_lines(contents@));
    let ghost set = views(already_set@);
    let mut taken: Vec<String> = Vec::new();
    let mut out: Vec<(String, String)> = Vec::new();
    proof {
        assert(pair_views(out@) =~= first_unset(all.take(0), set));
        assert(views(taken@) =~= names(pair_views(out@)));
    }
    for pair in it: pairs
        invariant
            it.seq() == pairs@,
            pair_views(pairs@) == all,
            set == views(already_set@),
            pair_views(out@) == first_unset(all.take(it.index() as int), set),
            views(taken@) == names(pair_views(out@)),
    {
        let ghost i = it.index() as int;
        proof {
            assert(all.take(i + 1).drop_last() =~= all.take(i));
            assert(all[i] == (pair.0@, pair.1@));
        }
        if !holds_text(already_set, pair.0.as_str()) && !holds_text(&taken, pair.0.as_str()) {
            let ghost (before, had) = (out@, taken@);
            let ghost view = (pair.0@, pair.1@);
            taken.push(pair.0.clone());
            out.push(pair);
            proof {
                assert(pair_views(out@) =~= pair_views(before).push(view));
                assert(views(taken@) =~= views(had).push(view.0));
                assert(names(pair_views(out@)) =~= names(pair_views(before)).push(view.0));
            }
        }
    }
    proof {
        assert(all.take(all.len() as int) =~= all);
    }
    out
}

/// An environment with assignments made in it, in their order.
pub open spec fn with_assigned(
    env: Map<Seq<char>, Seq<char>>,
    a: Seq<(Seq<char>, Seq<char>)>,
) -> Map<Seq<char>, Seq<char>>
    decreases a.len(),
{
    if a.len() == 0 {
        env
    } else {
        with_assigned(env, a.drop_last()).insert(a.last().0, a.last().1)
    }
}

/// The first value that assignments give a name.
pub open spec fn first_value(a: Seq<(Seq<char>, Seq<char>)>, name: Seq<char>) -> Option<Seq<char>>
    decreases a.len(),
{
    if a.len() == 0 {
        None
    } else {
        match first_value(a.drop_last(), name) {
            Some(v) => Some(v),
            None => if a.last().0 == name {
                Some(a.last().1)
            } else {
                None
            },
        }
    }
}

/// Real variables take precedence: a variable that is set keeps its value, one that is not gets the
/// first value that the file gives it, and no other variable is touched.
pub proof fn law_environment_wins(
    env: Map<Seq<char>, Seq<char>>,
    a: Seq<(Seq<char>, Seq<char>)>,
    set: Seq<Seq<char>>,
    name: Seq<char>,
)
    requires
        forall|k: Seq<char>| #[trigger] set.contains(k) <==> env.contains_key(k),
    ensures
        ({
            let after = with_assigned(env, first_unset(a, set));
            &&& env.contains_key(name) ==> after.contains_key(name) && after[name] == env[name]
            &&& !env.contains_key(name) ==> match first_value(a, name) {
                Some(v) => after.contains_key(name) && after[name] == v,
                None => !after.contains_key(name),
            }
        }),
        names(first_unset(a, set)).contains(name) <==> !set.contains(name) && first_value(a, name)
            is Some,
    decreases a.len(),
{
    if a.len() > 0 {
        let before = first_unset(a.drop_last(), set);
        let last = a.last();
        law_environment_wins(env, a.drop_last(), set, name);
        law_environment_wins(env, a.drop_last(), set, last.0);
        if !(set.contains(last.0) || names(before).contains(last.0)) {
            assert(first_unset(a, set) == before.push(last));
            assert(before.push(last).drop_last() =~= before);
            assert(names(before.push(last)) =~= names(before).push(last.0));
            lemma_push_contains(names(before), last.0, name);
        }
    }
}

} // verus!
