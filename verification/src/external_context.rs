//! The decisions around asking an external provider for extra context at
//! the start of a turn: which bearer token is sent, how a failed answer is
//! reported, and which of the returned contexts are kept.
use vstd::prelude::*;
use crate::text::{chars_of, concat3, concat4, string_from_chars, strings_view, trim, trim_bounds, trimmed};

verus! {

/// The bearer token to send, from the value of the variable `env_var`: the
/// value trimmed; an error naming the variable when that is empty.
pub fn bearer_token(env_var: &str, value: &str) -> (r: Result<String, String>)
    ensures
        match r {
            Ok(t) => trim(value@).len() > 0 && t@ == trim(value@),
            Err(e) => trim(value@).len() == 0 && e@ == "bearer token env var `"@ + env_var@
                + "` is empty"@,
        },
{
    let c = chars_of(value);
    let t = trimmed(c.as_slice());
    if t.len() == 0 {
        Err(concat3("bearer token env var `", env_var, "` is empty"))
    } else {
        Ok(string_from_chars(t.as_slice()))
    }
}

/// The report of an answer with a failing HTTP status.
pub open spec fn spec_status_error(status: Seq<char>, body: Seq<char>) -> Seq<char> {
    if trim(body).len() == 0 {
        "external context provider returned HTTP "@ + status
    } else {
        "external context provider returned HTTP "@ + status + ": "@ + trim(body)
    }
}

/// The report of an answer whose HTTP status `status` (as displayed) is not
/// a success, with the trimmed body as detail when there is one.
pub fn provider_status_error(status: &str, body: &str) -> (r: String)
    ensures
        r@ == spec_status_error(status@, body@),
{
    let c = chars_of(body);
    let t = trimmed(c.as_slice());
    if t.len() == 0 {
        let mut out = chars_of("external context provider returned HTTP ");
        let s = chars_of(status);
        crate::text::push_all(&mut out, s.as_slice());
        string_from_chars(out.as_slice())
    } else {
        let detail = string_from_chars(t.as_slice());
        concat4("external context provider returned HTTP ", status, ": ", detail.as_str())
    }
}

/// The non-blank contexts, each trimmed, in order.
pub open spec fn kept_contexts(values: Seq<Seq<char>>) -> Seq<Seq<char>>
    decreases values.len(),
{
    if values.len() == 0 {
        Seq::empty()
    } else {
        kept_contexts(values.drop_last()) + if trim(values.last()).len() > 0 {
            seq![trim(values.last())]
        } else {
            Seq::empty()
        }
    }
}

/// The contexts a provider returned that are kept: the non-blank ones,
/// trimmed.
pub fn additional_contexts(values: &[String]) -> (r: Vec<String>)
    ensures
        strings_view(r@) == kept_contexts(strings_view(values@)),
{
    let ghost vs = strings_view(values@);
    let mut r: Vec<String> = Vec::new();
    let mut i: usize = 0;
    while i < values.len()
        invariant
            0 <= i <= values.len(),
            vs == strings_view(values@),
            strings_view(r@) == kept_contexts(vs.take(i as int)),
        decreases values.len() - i,
    {
        assert(vs.take(i + 1).drop_last() == vs.take(i as int));
        assert(vs.take(i + 1).last() == values@[i as int]@);
        let c = chars_of(values[i].as_str());
        let (a, b) = trim_bounds(c.as_slice());
        if a < b {
            let ghost before = strings_view(r@);
            let t = trimmed(c.as_slice());
            let s = string_from_chars(t.as_slice());
            r.push(s);
            assert(strings_view(r@) =~= before + seq![t@]);
        } else {
            assert(strings_view(r@) =~= strings_view(r@) + Seq::<Seq<char>>::empty());
        }
        i = i + 1;
    }
    assert(vs.take(values@.len() as int) == vs);
    r
}

} // verus!
