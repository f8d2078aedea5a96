//! Finding the vision projector (`mmproj`) that belongs to a model file.
//!
//! The candidates are the file names found beside the model. A projector is
//! a `.gguf` file whose lowercased name marks it as an mmproj; among those,
//! the one sharing the most name tokens with the model (and, for a known
//! model family, naming that family) is attached.

use vstd::prelude::*;
use crate::text::{
    ascii_lower, ascii_lower_chars, chars_equal, chars_of, contains_chars, contains_seq,
    is_ascii_alphanumeric, is_ascii_alphanumeric_exec, starts_with, starts_with_chars,
    to_lowercase, unicode_lowercase,
};

verus! {

broadcast use vstd::string::group_string_axioms;

/// The extension of a bare file name as `Path::extension` gives it: the
/// text after the last `.`, unless that dot starts the name; `..` has none.
pub open spec fn extension_of(name: Seq<char>) -> Option<Seq<char>> {
    if name == ".."@ {
        None
    } else {
        match last_dot(name) {
            Some(i) => if i > 0 {
                Some(name.skip(i + 1))
            } else {
                None
            },
            None => None,
        }
    }
}

/// Index of the last `.` in `s`.
pub open spec fn last_dot(s: Seq<char>) -> Option<int>
    decreases s.len(),
{
    if s.len() == 0 {
        None
    } else if s.last() == '.' {
        Some(s.len() - 1)
    } else {
        last_dot(s.drop_last())
    }
}

/// A lowercased file name that marks a projector.
pub open spec fn mmproj_marked(lower: Seq<char>) -> bool {
    starts_with(lower, "mmproj"@) || contains_seq(lower, "-mmproj"@) || contains_seq(lower, "_mmproj"@)
        || contains_seq(lower, "mmproj-model"@)
}

/// A file name that is a projector candidate: a `.gguf` extension in any
/// ASCII case and a projector marking in the lowercased name.
pub open spec fn is_mmproj_name(name: Seq<char>) -> bool {
    &&& extension_of(name) is Some
    &&& ascii_lower(extension_of(name)->0) == "gguf"@
    &&& mmproj_marked(unicode_lowercase(name))
}

/// The pieces of `s` between characters that are not ASCII alphanumeric.
pub open spec fn alnum_pieces(s: Seq<char>) -> Seq<Seq<char>>
    decreases s.len(),
{
    if s.len() == 0 {
        seq![seq![]]
    } else {
        let prev = alnum_pieces(s.drop_last());
        if !is_ascii_alphanumeric(s.last()) {
            prev.push(seq![])
        } else {
            prev.update(prev.len() - 1, prev.last().push(s.last()))
        }
    }
}

/// How many of the pieces longer than two characters occur in `name`
/// (each piece counted as often as it appears).
pub open spec fn tokens_found(pieces: Seq<Seq<char>>, name: Seq<char>) -> nat
    decreases pieces.len(),
{
    if pieces.len() == 0 {
        0
    } else {
        tokens_found(pieces.drop_last(), name) + if pieces.last().len() > 2 && contains_seq(name, pieces.last()) {
            1nat
        } else {
            0nat
        }
    }
}

/// The number of the model stem's name tokens found in a candidate's name,
/// both lowercased.
pub open spec fn shared_tokens(model_stem: Seq<char>, candidate: Seq<char>) -> nat {
    tokens_found(alnum_pieces(unicode_lowercase(model_stem)), unicode_lowercase(candidate))
}

pub open spec fn family_tokens() -> Seq<Seq<char>> {
    seq!["gemma"@, "qwen"@, "llava"@, "mistral"@, "phi"@, "internvl"@, "minicpm"@]
}

/// The first of `families` that occurs in `lower`.
pub open spec fn first_family(families: Seq<Seq<char>>, lower: Seq<char>) -> Option<Seq<char>>
    decreases families.len(),
{
    if families.len() == 0 {
        None
    } else if contains_seq(lower, families[0]) {
        Some(families[0])
    } else {
        first_family(families.drop_first(), lower)
    }
}

/// The model family a file name names, if any.
pub open spec fn family_of(name: Seq<char>) -> Option<Seq<char>> {
    first_family(family_tokens(), unicode_lowercase(name))
}

/// A candidate that may be attached: a projector name sharing at least one
/// token with the model stem and naming the model's family, if it has one.
pub open spec fn eligible(model_stem: Seq<char>, model_name: Seq<char>, candidate: Seq<char>) -> bool {
    &&& is_mmproj_name(candidate)
    &&& shared_tokens(model_stem, candidate) > 0
    &&& match family_of(model_name) {
        Some(f) => contains_seq(unicode_lowercase(candidate), f),
        None => true,
    }
}

fn extension_exec(name: &[char]) -> (r: Option<Vec<char>>)
    ensures
        match extension_of(name@) {
            Some(e) => r matches Some(v) && v@ == e,
            None => r is None,
        },
{
    if chars_equal(name, &chars_of("..")) {
        return None;
    }
    let mut i: usize = name.len();
    assert(name@.take(name.len() as int) =~= name@);
    while i > 0
        invariant
            i <= name.len(),
            last_dot(name@) == last_dot(name@.take(i as int)),
            name@ != ".."@,
        decreases i,
    {
        assert(name@.take(i as int).drop_last() =~= name@.take(i - 1));
        if name[i - 1] == '.' {
            assert(name@.take(i as int).last() == '.');
            assert(last_dot(name@) == Some(i - 1));
            if i - 1 == 0 {
                return None;
            }
            let mut v: Vec<char> = Vec::new();
            let mut k: usize = i;
            while k < name.len()
                invariant
                    i <= k <= name.len(),
                    v@ == name@.subrange(i as int, k as int),
                decreases name.len() - k,
            {
                v.push(name[k]);
                k += 1;
                assert(v@ =~= name@.subrange(i as int, k as int));
            }
            assert(v@ =~= name@.skip(i as int));
            return Some(v);
        }
        i -= 1;
    }
    assert(name@.take(0) =~= Seq::<char>::empty());
    None
}

/// Whether a file name is a projector candidate.
pub fn is_mmproj_candidate(file_name: &str) -> (b: bool)
    ensures
        b == is_mmproj_name(file_name@),
{
    let name = chars_of(file_name);
    let ext = match extension_exec(&name) {
        None => {
            return false;
        },
        Some(e) => e,
    };
    if !chars_equal(&ascii_lower_chars(&ext), &chars_of("gguf")) {
        return false;
    }
    let lower = chars_of(to_lowercase(file_name).as_str());
    starts_with_chars(&lower, &chars_of("mmproj")) || contains_chars(&lower, &chars_of("-mmproj"))
        || contains_chars(&lower, &chars_of("_mmproj")) || contains_chars(&lower, &chars_of("mmproj-model"))
}

proof fn lemma_alnum_pieces_len(s: Seq<char>)
    ensures
        alnum_pieces(s).len() >= 1,
    decreases s.len(),
{
    if s.len() > 0 {
        lemma_alnum_pieces_len(s.drop_last());
    }
}

fn alnum_pieces_exec(v: &[char]) -> (r: Vec<Vec<char>>)
    ensures
        r@.map_values(|p: Vec<char>| p@) == alnum_pieces(v@),
{
    let mut done: Vec<Vec<char>> = Vec::new();
    let mut cur: Vec<char> = Vec::new();
    let mut i: usize = 0;
    assert(v@.take(0) =~= Seq::<char>::empty());
    while i < v.len()
        invariant
            i <= v.len(),
            done@.map_values(|p: Vec<char>| p@).push(cur@) == alnum_pieces(v@.take(i as int)),
        decreases v.len() - i,
    {
        let ghost prev = alnum_pieces(v@.take(i as int));
        proof {
            lemma_alnum_pieces_len(v@.take(i as int));
            assert(v@.take(i + 1).drop_last() =~= v@.take(i as int));
            assert(v@.take(i + 1).last() == v@[i as int]);
        }
        if !is_ascii_alphanumeric_exec(v[i]) {
            let finished = cur;
            done.push(finished);
            cur = Vec::new();
            assert(done@.map_values(|p: Vec<char>| p@).push(cur@) =~= prev.push(seq![]));
        } else {
            cur.push(v[i]);
            assert(done@.map_values(|p: Vec<char>| p@).push(cur@) =~= prev.update(
                prev.len() - 1,
                prev.last().push(v@[i as int]),
            ));
        }
        i += 1;
    }
    done.push(cur);
    assert(v@.take(v.len() as int) =~= v@);
    done
}

proof fn lemma_tokens_found_bound(pieces: Seq<Seq<char>>, name: Seq<char>)
    ensures
        tokens_found(pieces, name) <= pieces.len(),
    decreases pieces.len(),
{
    if pieces.len() > 0 {
        lemma_tokens_found_bound(pieces.drop_last(), name);
    }
}

/// How many name tokens (pieces of more than two ASCII alphanumeric
/// characters) of the model's file stem occur in the candidate's file
/// name, both lowercased.
pub fn shared_token_score(model_stem: &str, candidate_name: &str) -> (n: usize)
    ensures
        n == shared_tokens(model_stem@, candidate_name@),
{
    let stem = chars_of(to_lowercase(model_stem).as_str());
    let name = chars_of(to_lowercase(candidate_name).as_str());
    let pieces = alnum_pieces_exec(&stem);
    let ghost ps = pieces@.map_values(|p: Vec<char>| p@);
    let mut n: usize = 0;
    let mut i: usize = 0;
    while i < pieces.len()
        invariant
            i <= pieces.len(),
            ps == pieces@.map_values(|p: Vec<char>| p@),
            n == tokens_found(ps.take(i as int), name@),
        decreases pieces.len() - i,
    {
        proof {
            assert(ps.take(i + 1).drop_last() =~= ps.take(i as int));
            lemma_tokens_found_bound(ps.take(i as int), name@);
        }
        if pieces[i].len() > 2 && contains_chars(&name, &pieces[i]) {
            n += 1;
        }
        i += 1;
    }
    assert(ps.take(pieces.len() as int) =~= ps);
    n
}

/// The model family named by a file name (lowercased), among gemma, qwen,
/// llava, mistral, phi, internvl and minicpm, first match in that order.
pub fn model_family_token(file_name: &str) -> (r: Option<&'static str>)
    ensures
        match family_of(file_name@) {
            Some(f) => r matches Some(t) && t@ == f,
            None => r is None,
        },
{
    let lower = chars_of(to_lowercase(file_name).as_str());
    let families: [&'static str; 7] = ["gemma", "qwen", "llava", "mistral", "phi", "internvl", "minicpm"];
    let ghost fams = family_tokens();
    proof {
        reveal_strlit("gemma");
        reveal_strlit("qwen");
        reveal_strlit("llava");
        reveal_strlit("mistral");
        reveal_strlit("phi");
        reveal_strlit("internvl");
        reveal_strlit("minicpm");
    }
    assert(forall|k: int| 0 <= k < 7 ==> #[trigger] families@[k]@ == fams[k]);
    let mut i: usize = 0;
    assert(fams.skip(0) =~= fams);
    while i < 7
        invariant
            i <= 7,
            lower@ == unicode_lowercase(file_name@),
            fams == family_tokens(),
            forall|k: int| 0 <= k < 7 ==> #[trigger] families@[k]@ == fams[k],
            first_family(fams, lower@) == first_family(fams.skip(i as int), lower@),
        decreases 7 - i,
    {
        let f = families[i];
        assert(fams.skip(i as int)[0] == fams[i as int]);
        assert(fams.skip(i as int).drop_first() =~= fams.skip(i + 1));
        if contains_chars(&lower, &chars_of(f)) {
            return Some(f);
        }
        i += 1;
    }
    None
}

/// Whether a candidate may be attached to the model.
fn is_eligible(model_stem: &str, model_name: &str, family: Option<&'static str>, candidate: &str) -> (b: bool)
    requires
        match family_of(model_name@) {
            Some(f) => family matches Some(t) && t@ == f,
            None => family is None,
        },
    ensures
        b == eligible(model_stem@, model_name@, candidate@),
{
    if !is_mmproj_candidate(candidate) {
        return false;
    }
    if shared_token_score(model_stem, candidate) == 0 {
        return false;
    }
    match family {
        None => true,
        Some(f) => contains_chars(&chars_of(to_lowercase(candidate).as_str()), &chars_of(f)),
    }
}

/// The projector to attach to a model, as an index into the file names
/// found beside it: among the eligible candidates the one sharing the most
/// tokens with the model's stem, the earliest on a tie.
pub fn find_mmproj_for_model(model_stem: &str, model_file_name: &str, candidates: &Vec<String>) -> (r: Option<usize>)
    ensures
        match r {
            Some(i) => {
                &&& i < candidates@.len()
                &&& eligible(model_stem@, model_file_name@, candidates@[i as int]@)
                &&& forall|j: int|
                    0 <= j < candidates@.len() && eligible(model_stem@, model_file_name@, #[trigger] candidates@[j]@) ==> {
                        ||| shared_tokens(model_stem@, candidates@[j]@) < shared_tokens(model_stem@, candidates@[i as int]@)
                        ||| (shared_tokens(model_stem@, candidates@[j]@) == shared_tokens(model_stem@, candidates@[i as int]@)
                            && i <= j)
                    }
            },
            None => forall|j: int|
                0 <= j < candidates@.len() ==> !eligible(model_stem@, model_file_name@, #[trigger] candidates@[j]@),
        },
{
    let family = model_family_token(model_file_name);
    let mut best: Option<usize> = None;
    let mut best_score: usize = 0;
    let mut i: usize = 0;
    while i < candidates.len()
        invariant
            i <= candidates@.len(),
            match family_of(model_file_name@) {
                Some(f) => family matches Some(t) && t@ == f,
                None => family is None,
            },
            match best {
                Some(b) => {
                    &&& b < i
                    &&& eligible(model_stem@, model_file_name@, candidates@[b as int]@)
                    &&& best_score == shared_tokens(model_stem@, candidates@[b as int]@)
                    &&& forall|j: int|
                        0 <= j < i && eligible(model_stem@, model_file_name@, #[trigger] candidates@[j]@) ==> {
                            ||| shared_tokens(model_stem@, candidates@[j]@) < best_score
                            ||| (shared_tokens(model_stem@, candidates@[j]@) == best_score && b <= j)
                        }
                },
                None => forall|j: int|
                    0 <= j < i ==> !eligible(model_stem@, model_file_name@, #[trigger] candidates@[j]@),
            },
        decreases candidates@.len() - i,
    {
        let c = candidates[i].as_str();
        if is_eligible(model_stem, model_file_name, family, c) {
            let score = shared_token_score(model_stem, c);
            let better = match best {
                None => true,
                Some(_) => score > best_score,
            };
            if better {
                best = Some(i);
                best_score = score;
            }
        }
        i += 1;
    }
    best
}

} // verus!
