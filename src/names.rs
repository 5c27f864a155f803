use vstd::prelude::*;
use vstd::string::*;
use crate::config::{NameConfig, num_retry, rand_fn_len, valid_chars};
use crate::error::TempError;
use crate::paths::{views, same_text};

verus! {

/// `c` is one of the bytes of `alphabet`, read as a character.
pub open spec fn in_alphabet(c: char, alphabet: Seq<u8>) -> bool {
    exists|j: int| 0 <= j < alphabet.len() && c == #[trigger] (alphabet[j] as char)
}

/// Every character of `name` is one of `alphabet`.
pub open spec fn drawn_from(name: Seq<char>, alphabet: Seq<u8>) -> bool {
    forall|i: int| 0 <= i < name.len() ==> in_alphabet(#[trigger] name[i], alphabet)
}

/// Relies on `rand::rng` and `Rng::random_range`: a number drawn from
/// `0..bound`. The call panics on an empty range, which `requires` rules out.
#[verifier::external_body]
fn random_index(bound: usize) -> (r: usize)
    requires
        bound > 0,
    ensures
        r < bound,
{
    rand::Rng::random_range(&mut rand::rng(), 0..bound)
}

/// Relies on `String::push`: appends one character at the end.
#[verifier::external_body]
pub(crate) fn push_char(s: &mut String, c: char)
    ensures
        final(s)@ == old(s)@.push(c),
{
    s.push(c)
}

/// A name of `len` characters, each drawn at random from `alphabet`.
pub fn random_name(alphabet: &[u8], len: usize) -> (r: String)
    requires
        alphabet@.len() > 0 || len == 0,
    ensures
        r@.len() == len,
        drawn_from(r@, alphabet@),
{
    let mut name = String::new();
    let mut i: usize = 0;
    while i < len
        invariant
            alphabet@.len() > 0 || len == 0,
            i <= len,
            name@.len() == i,
            drawn_from(name@, alphabet@),
        decreases len - i,
    {
        let k = random_index(alphabet.len());
        let c = alphabet[k] as char;
        let ghost before = name@;
        push_char(&mut name, c);
        assert forall|j: int| 0 <= j < name@.len() implies in_alphabet(
            #[trigger] name@[j],
            alphabet@,
        ) by {
            if j < before.len() {
                assert(name@[j] == before[j]);
            } else {
                assert(name@[j] == alphabet@[k as int] as char);
            }
        }
        i = i + 1;
    }
    name
}

/// Whether `name` is one of `taken`.
pub fn is_taken(taken: &[String], name: &str) -> (r: bool)
    ensures
        r == views(taken@).contains(name@),
{
    let mut i: usize = 0;
    while i < taken.len()
        invariant
            i <= taken@.len(),
            forall|j: int| 0 <= j < i ==> taken@[j]@ != name@,
        decreases taken@.len() - i,
    {
        if same_text(taken[i].as_str(), name) {
            assert(views(taken@)[i as int] == name@);
            return true;
        }
        i = i + 1;
    }
    proof {
        if views(taken@).contains(name@) {
            let j = choose|j: int| 0 <= j < views(taken@).len() && views(taken@)[j] == name@;
            assert(taken@[j]@ == name@);
        }
    }
    false
}

/// A random name that is not one of `taken`, the names already in use
/// where it is meant to go. Candidates are drawn until one is free, at most
/// as many times as the configured attempt budget; past that the search
/// fails with `NameGenerationExhausted`. Reading the settings fixes them.
pub fn generate_unique(cfg: &mut NameConfig, taken: &[String]) -> (r: Result<String, TempError>)
    ensures
        final(cfg).num_retry_setting() == Some(old(cfg).num_retry_value()),
        final(cfg).rand_fn_len_setting() == Some(old(cfg).rand_fn_len_value()),
        final(cfg).valid_chars_setting() == Some(old(cfg).valid_chars_value()),
        match r {
            Ok(name) => name@.len() == old(cfg).rand_fn_len_value() && drawn_from(
                name@,
                old(cfg).valid_chars_value(),
            ) && !views(taken@).contains(name@),
            Err(e) => e is NameGenerationExhausted,
        },
        old(cfg).num_retry_value() == 0 ==> r.is_err(),
        old(cfg).valid_chars_value().len() == 0 && old(cfg).rand_fn_len_value() > 0 ==> r.is_err(),
        old(cfg).num_retry_value() > 0 && (old(cfg).valid_chars_value().len() > 0
            || old(cfg).rand_fn_len_value() == 0) && taken@.len() == 0 ==> r.is_ok(),
{
    let budget = num_retry(cfg);
    let len = rand_fn_len(cfg);
    let chars = valid_chars(cfg);
    if chars.len() == 0 && len > 0 {
        return Err(TempError::NameGenerationExhausted);
    }
    let mut attempt: usize = 0;
    while attempt < budget
        invariant
            attempt <= budget,
            budget == old(cfg).num_retry_value(),
            len == old(cfg).rand_fn_len_value(),
            chars@ == old(cfg).valid_chars_value(),
            cfg.num_retry_setting() == Some(old(cfg).num_retry_value()),
            cfg.rand_fn_len_setting() == Some(old(cfg).rand_fn_len_value()),
            cfg.valid_chars_setting() == Some(old(cfg).valid_chars_value()),
            chars@.len() > 0 || len == 0,
            attempt > 0 ==> taken@.len() > 0,
        decreases budget - attempt,
    {
        let name = random_name(chars.as_slice(), len);
        if !is_taken(taken, name.as_str()) {
            return Ok(name);
        }
        assert(views(taken@).len() > 0);
        attempt = attempt + 1;
    }
    Err(TempError::NameGenerationExhausted)
}

/// Names drawn one after another, each avoiding the names taken before it
/// and those drawn earlier, are pairwise distinct.
pub proof fn lemma_successive_names_distinct(taken: Seq<Seq<char>>, names: Seq<Seq<char>>)
    requires
        forall|i: int|
            0 <= i < names.len() ==> !(taken + names.subrange(0, i)).contains(
                #[trigger] names[i],
            ),
    ensures
        forall|i: int, j: int| 0 <= i < j < names.len() ==> names[i] != names[j],
{
    assert forall|i: int, j: int| 0 <= i < j < names.len() implies names[i] != names[j] by {
        let earlier = taken + names.subrange(0, j);
        assert(earlier[taken.len() + i] == names[i]);
        assert(!earlier.contains(names[j]));
    }
}

} // verus!
