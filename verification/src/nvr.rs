//! The name, version and release of a package as one value.

use vstd::prelude::*;
use crate::parse::{lemma_nvr_parts, nevra_error, nvr_parts, parse_nvr};

verus! {

/// This struct encapsulates a parsed NVR string.
#[derive(Debug)]
#[allow(clippy::upper_case_acronyms)]
pub struct NVR {
    /// name of the package
    pub n: String,
    /// version of the package
    pub v: String,
    /// release of the package
    pub r: String,
}

impl View for NVR {
    type V = (Seq<char>, Seq<char>, Seq<char>);

    open spec fn view(&self) -> (Seq<char>, Seq<char>, Seq<char>) {
        (self.n@, self.v@, self.r@)
    }
}

/// The three parts joined by dashes.
pub open spec fn nvr_text(parts: (Seq<char>, Seq<char>, Seq<char>)) -> Seq<char> {
    parts.0 + seq!['-'] + parts.1 + seq!['-'] + parts.2
}

/// What parsing `s` into an `NVR` gives: its three parts, or the message
/// that names the text.
pub open spec fn nvr_parsed(s: Seq<char>) -> Result<(Seq<char>, Seq<char>, Seq<char>), Seq<char>> {
    match nvr_parts(s) {
        Some(parts) => Ok(parts),
        None => Err(nevra_error(s)),
    }
}

/// Whether a parse result stands for `expected`.
pub open spec fn nvr_result_is(
    res: Result<NVR, String>,
    expected: Result<(Seq<char>, Seq<char>, Seq<char>), Seq<char>>,
) -> bool {
    match res {
        Ok(nvr) => expected == Ok::<(Seq<char>, Seq<char>, Seq<char>), Seq<char>>(nvr@),
        Err(msg) => expected == Err::<(Seq<char>, Seq<char>, Seq<char>), Seq<char>>(msg@),
    }
}

impl PartialEq for NVR {
    fn eq(&self, other: &Self) -> (res: bool) {
        self.n == other.n && self.v == other.v && self.r == other.r
    }
}

impl vstd::std_specs::cmp::PartialEqSpecImpl for NVR {
    open spec fn obeys_eq_spec() -> bool {
        true
    }

    open spec fn eq_spec(&self, other: &Self) -> bool {
        self.n@ == other.n@ && self.v@ == other.v@ && self.r@ == other.r@
    }
}

impl Eq for NVR {

}

impl NVR {
    /// The text form of the value: name, version and release joined by
    /// dashes.
    pub fn to_string(&self) -> (s: String)
        ensures
            s@ == nvr_text(self@),
    {
        let s = self.n.clone();
        let s = s.concat("-");
        let s = s.concat(self.v.as_str());
        let s = s.concat("-");
        let s = s.concat(self.r.as_str());
        proof {
            reveal_strlit("-");
            assert("-"@ =~= seq!['-']);
        }
        s
    }
}

impl TryFrom<&str> for NVR {
    type Error = String;

    fn try_from(value: &str) -> (res: Result<Self, Self::Error>)
        ensures
            nvr_result_is(res, nvr_parsed(value@)),
    {
        match parse_nvr(value) {
            Ok((n, v, r)) => Ok(NVR { n: n.to_owned(), v: v.to_owned(), r: r.to_owned() }),
            Err(msg) => Err(msg),
        }
    }
}

impl vstd::std_specs::convert::TryFromSpecImpl<&str> for NVR {
    open spec fn obeys_try_from_spec() -> bool {
        false
    }

    open spec fn try_from_spec(v: &str) -> Result<Self, String> {
        arbitrary()
    }
}

impl core::str::FromStr for NVR {
    type Err = String;

    fn from_str(s: &str) -> (res: Result<Self, Self::Err>)
        ensures
            nvr_result_is(res, nvr_parsed(s@)),
    {
        NVR::try_from(s)
    }
}

/// Parsing the text form of a value gives the value back, provided that
/// neither its version nor its release holds a dash.
pub proof fn lemma_text_round_trip(parts: (Seq<char>, Seq<char>, Seq<char>))
    requires
        !parts.1.contains('-'),
        !parts.2.contains('-'),
    ensures
        nvr_parts(nvr_text(parts)) == Some(parts),
{
    let s = nvr_text(parts);
    let j = parts.0.len() as int;
    let i = j + 1 + parts.1.len();
    crate::text::lemma_last_index(s, '-');
    assert(s[i] == '-');
    assert(s[j] == '-');
    assert forall|k: int| i < k < s.len() implies s[k] != '-' by {
        assert(s[k] == parts.2[k - i - 1]);
    }
    assert(crate::text::last_index(s, '-') == i);
    let head = s.take(i);
    crate::text::lemma_last_index(head, '-');
    assert(head[j] == '-');
    assert forall|k: int| j < k < head.len() implies head[k] != '-' by {
        assert(head[k] == parts.1[k - j - 1]);
    }
    assert(s.take(j) =~= parts.0);
    assert(s.subrange(j + 1, i) =~= parts.1);
    assert(s.skip(i + 1) =~= parts.2);
}

/// The text form of a parsed value is the text that was parsed.
pub proof fn lemma_parsed_text(s: Seq<char>)
    ensures
        nvr_parts(s) matches Some(parts) ==> nvr_text(parts) == s,
{
    lemma_nvr_parts(s);
}

} // verus!
