//! File names: which of them name a metadata file.

use vstd::prelude::*;
use vstd::string::StrSliceExecFns;

verus! {

/// The place of the last dot in a name, or -1 for a name without a dot.
pub open spec fn last_dot(name: Seq<char>) -> int
    decreases name.len(),
{
    if name.len() == 0 {
        -1
    } else if name.last() == '.' {
        name.len() - 1
    } else {
        last_dot(name.drop_last())
    }
}

/// The extension of a file name: what follows its last dot. A name without a
/// dot has none, and neither has a name whose only dot is its first
/// character.
pub open spec fn extension(name: Seq<char>) -> Option<Seq<char>> {
    let dot = last_dot(name);
    if dot <= 0 {
        None
    } else {
        Some(name.subrange(dot + 1, name.len() as int))
    }
}

/// A metadata file is one whose extension is `json`, in small letters.
pub open spec fn is_metadata_name(name: Seq<char>) -> bool {
    extension(name) == Some("json"@)
}

/// The last dot is a dot, and no dot follows it.
pub proof fn lemma_last_dot(name: Seq<char>)
    ensures
        -1 <= last_dot(name) < name.len(),
        last_dot(name) >= 0 ==> name[last_dot(name)] == '.',
        forall|k: int| last_dot(name) < k < name.len() ==> name[k] != '.',
    decreases name.len(),
{
    if name.len() > 0 && name.last() != '.' {
        let front = name.drop_last();
        lemma_last_dot(front);
        assert forall|k: int| last_dot(name) < k < name.len() implies name[k] != '.' by {
            if k < front.len() {
                assert(name[k] == front[k]);
            }
        }
    }
}

/// A name is that of a metadata file exactly when it ends in `.json` and has
/// something before that ending.
pub proof fn lemma_metadata_name_ending(name: Seq<char>)
    ensures
        is_metadata_name(name) <==> name.len() > 5 && name.subrange(name.len() - 5, name.len() as int)
            == ".json"@,
{
    reveal_strlit("json");
    reveal_strlit(".json");
    let n = name.len() as int;
    let dot = last_dot(name);
    lemma_last_dot(name);
    if n > 5 && name.subrange(n - 5, n) == ".json"@ {
        let ending = name.subrange(n - 5, n);
        assert(name[n - 5] == ending[0] && name[n - 4] == ending[1] && name[n - 3] == ending[2]
            && name[n - 2] == ending[3] && name[n - 1] == ending[4]);
        assert(dot == n - 5);
        assert(name.subrange(dot + 1, n) =~= "json"@);
    }
    if is_metadata_name(name) {
        let found = name.subrange(dot + 1, n);
        assert(found.len() == 4);
        assert(name[n - 4] == found[0] && name[n - 3] == found[1] && name[n - 2] == found[2]
            && name[n - 1] == found[3]);
        assert(name.subrange(n - 5, n) =~= ".json"@);
    }
}

/// Tells whether a file name is that of a metadata file.
pub fn is_metadata_file(name: &str) -> (wanted: bool)
    ensures
        wanted == is_metadata_name(name@),
{
    proof {
        lemma_metadata_name_ending(name@);
        reveal_strlit(".json");
    }
    let n = name.unicode_len();
    if n <= 5 {
        return false;
    }
    let ghost ending = name@.subrange(n - 5, n as int);
    assert(ending[0] == name@[n - 5] && ending[1] == name@[n - 4] && ending[2] == name@[n - 3]
        && ending[3] == name@[n - 2] && ending[4] == name@[n - 1]);
    let wanted = name.get_char(n - 5) == '.' && name.get_char(n - 4) == 'j' && name.get_char(n - 3)
        == 's' && name.get_char(n - 2) == 'o' && name.get_char(n - 1) == 'n';
    assert(wanted ==> ending =~= ".json"@);
    wanted
}

} // verus!
