//! Finding a model: a local directory, or a model of a hub by `org/name`.
use vstd::prelude::*;
use vstd::string::*;

use crate::text::{chars_of, contains, find};
#[allow(unused_imports)]
use crate::text::{first_at, has};

verus! {

/// How often a character occurs.
pub open spec fn occurrences(s: Seq<char>, c: char) -> nat
    decreases s.len(),
{
    if s.len() == 0 {
        0
    } else {
        occurrences(s.drop_last(), c) + (if s.last() == c {
            1nat
        } else {
            0
        })
    }
}

/// How often a character occurs.
fn count_char(s: &str, c: char) -> (r: usize)
    ensures
        r == occurrences(s@, c),
{
    let cs = chars_of(s);
    let n: usize = cs.len();
    let mut r: usize = 0;
    let mut i: usize = 0;
    while i < n
        invariant
            i <= n,
            n == cs@.len(),
            r <= i,
            r == occurrences(cs@.take(i as int), c),
        decreases n - i,
    {
        assert(cs@.take(i + 1).drop_last() =~= cs@.take(i as int));
        if cs[i] == c {
            r = r + 1;
        }
        i = i + 1;
    }
    assert(cs@.take(n as int) =~= cs@);
    r
}

/// The input has the form of a model of a hub: exactly one slash where the slash
/// separates directories, otherwise a slash and no separator.
pub open spec fn is_model_id(input: Seq<char>, separator: Seq<char>, unix: bool) -> bool {
    let separated = has(input, separator);
    (has(input, "/"@) && !separated) || (unix && occurrences(input, '/') == 1)
}

/// Whether the input has the form of a model of a hub.
pub fn looks_like_model_id(input: &str, separator: &str, unix: bool) -> (r: bool)
    ensures
        r == is_model_id(input@, separator@, unix),
{
    (contains(input, "/") && !contains(input, separator)) || (unix && count_char(input, '/') == 1)
}

/// Splits a model of a hub at its first slash.
pub fn split_model_id(input: &str) -> (r: Option<(String, String)>)
    ensures
        match r {
            Some((org, name)) => {
                &&& first_at(input@, "/"@) == Some(org@.len() as int)
                &&& input@ == org@ + "/"@ + name@
            },
            None => first_at(input@, "/"@) is None,
        },
{
    match find(input, "/") {
        Some(i) => {
            proof {
                reveal_strlit("/");
            }
            let org = input.substring_char(0, i);
            let name = input.substring_char(i + 1, input.unicode_len());
            assert(input@ =~= org@ + "/"@ + name@) by {
                assert(input@[i + 0] == "/"@[0]);
            }
            Some((org.to_owned(), name.to_owned()))
        },
        None => None,
    }
}

/// The directory of the local cache that holds a model.
pub open spec fn cache_dir_of(home: Seq<char>, org: Seq<char>, name: Seq<char>) -> Seq<char> {
    home + "/.cache/huggingface/hub/models--"@ + org + "--"@ + name
}

/// The directory of the local cache that holds a model.
pub fn cache_dir(home: &str, org: &str, name: &str) -> (r: String)
    ensures
        r@ == cache_dir_of(home@, org@, name@),
{
    let mut out = home.to_owned();
    out.append("/.cache/huggingface/hub/models--");
    out.append(org);
    out.append("--");
    out.append(name);
    out
}

/// Where the search for a model stands.
#[derive(Clone, Copy, Debug, PartialEq, Eq, Structural)]
pub enum Search {
    /// Test whether the input is a directory with a configuration.
    TestInput,
    /// Look for a snapshot with a configuration in the cache.
    LookInCache,
    /// Download the model.
    Download,
    /// Look in the cache once more.
    LookAgain,
    /// Take the input as it is.
    TakeInput,
    /// Take the snapshot that was found.
    TakeSnapshot,
}

/// What follows a step that succeeded or failed. `hub` says that the input has the
/// form of a model of a hub.
pub open spec fn step_after(step: Search, ok: bool, hub: bool) -> Search {
    match step {
        Search::TestInput => if ok || !hub {
            Search::TakeInput
        } else {
            Search::LookInCache
        },
        Search::LookInCache => if ok {
            Search::TakeSnapshot
        } else {
            Search::Download
        },
        Search::Download => if ok {
            Search::LookAgain
        } else {
            Search::TakeInput
        },
        Search::LookAgain => if ok {
            Search::TakeSnapshot
        } else {
            Search::TakeInput
        },
        Search::TakeInput => Search::TakeInput,
        Search::TakeSnapshot => Search::TakeSnapshot,
    }
}

/// Decides what follows a step of the search for a model.
pub fn resolve_model_path(step: Search, ok: bool, hub: bool) -> (r: Search)
    ensures
        r == step_after(step, ok, hub),
{
    match step {
        Search::TestInput => {
            if ok || !hub {
                Search::TakeInput
            } else {
                Search::LookInCache
            }
        },
        Search::LookInCache => {
            if ok {
                Search::TakeSnapshot
            } else {
                Search::Download
            }
        },
        Search::Download => {
            if ok {
                Search::LookAgain
            } else {
                Search::TakeInput
            }
        },
        Search::LookAgain => {
            if ok {
                Search::TakeSnapshot
            } else {
                Search::TakeInput
            }
        },
        Search::TakeInput => Search::TakeInput,
        Search::TakeSnapshot => Search::TakeSnapshot,
    }
}

/// The search has ended.
pub open spec fn is_settled(step: Search) -> bool {
    step == Search::TakeInput || step == Search::TakeSnapshot
}

/// The search ends after at most four steps, whatever they give.
pub proof fn law_search_ends(hub: bool, a: bool, b: bool, c: bool, d: bool)
    ensures
        is_settled(
            step_after(
                step_after(step_after(step_after(Search::TestInput, a, hub), b, hub), c, hub),
                d,
                hub,
            ),
        ),
{
}

/// A local directory with a configuration is taken at once, and what has not the
/// form of a model of a hub is never looked up.
pub proof fn law_local_models_come_first(ok: bool, hub: bool)
    requires
        ok || !hub,
    ensures
        step_after(Search::TestInput, ok, hub) == Search::TakeInput,
{
}

// What the search does.

/// How often a character occurs.
pub proof fn law_occurrences_are_counted(s: Seq<char>, c: char)
    ensures
        occurrences(s, c) == s.to_multiset().count(c),
    decreases s.len(),
{
    s.to_multiset_ensures();
    if s.len() > 0 {
        let rest = s.drop_last();
        law_occurrences_are_counted(rest, c);
        rest.to_multiset_ensures();
        assert(rest.push(s.last()) =~= s);
    } else {
        assert(s.to_multiset().len() == 0);
    }
}

/// What looks like a model of a hub: a text with a slash where slashes separate no
/// paths, and on Unix a text with exactly one.
pub proof fn law_model_ids_hold_slashes(input: Seq<char>, separator: Seq<char>, unix: bool)
    ensures
        !(has(input, "/"@)) && occurrences(input, '/') == 0 ==> !is_model_id(
            input,
            separator,
            unix,
        ),
        has(input, "/"@) && !(has(input, separator)) ==> is_model_id(input, separator, unix),
        has(input, separator) ==> (is_model_id(input, separator, unix) <==> unix && occurrences(
            input,
            '/',
        ) == 1),
        unix && occurrences(input, '/') == 1 ==> is_model_id(input, separator, unix),
{
}

/// The directory of the cache, spelled out.
pub proof fn law_cache_directory(home: Seq<char>, org: Seq<char>, name: Seq<char>)
    ensures
        cache_dir_of(home, org, name) == home + "/.cache/huggingface/hub/models--"@ + org + "--"@
            + name,
{
}

/// The way of the search: a directory is taken as it is, and so is what is no model
/// of a hub. For the others a cached snapshot is taken before anything is
/// downloaded, a download is looked up in the cache, and what is then not found is
/// taken as it is.
pub proof fn law_search_steps(hub: bool, ok: bool)
    ensures
        step_after(Search::TestInput, true, hub) == Search::TakeInput,
        step_after(Search::TestInput, ok, false) == Search::TakeInput,
        step_after(Search::TestInput, false, true) == Search::LookInCache,
        step_after(Search::LookInCache, true, hub) == Search::TakeSnapshot,
        step_after(Search::LookInCache, false, hub) == Search::Download,
        step_after(Search::Download, true, hub) == Search::LookAgain,
        step_after(Search::Download, false, hub) == Search::TakeInput,
        step_after(Search::LookAgain, true, hub) == Search::TakeSnapshot,
        step_after(Search::LookAgain, false, hub) == Search::TakeInput,
        step_after(Search::TakeInput, ok, hub) == Search::TakeInput,
        step_after(Search::TakeSnapshot, ok, hub) == Search::TakeSnapshot,
{
}

} // verus!
