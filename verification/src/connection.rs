//! What a client of the server needs to connect: the server's URI, and the text that its token is
//! sent in.
use crate::model::opt_string;
use crate::text::join2;
use vstd::prelude::*;

verus! {

/// The scheme of a URI and the URI as it is written out, of a text that is one.
pub uninterp spec fn parsed_uri(text: Seq<char>) -> Option<(Option<Seq<char>>, Seq<char>)>;

/// `http::Uri` from a text, with `Uri::scheme_str` and its `Display`: a function of the text alone.
#[verifier::external_body]
pub(crate) fn parse_uri(text: &str) -> (r: Option<(Option<String>, String)>)
    ensures
        match r {
            Some((scheme, uri)) => parsed_uri(text@) == Some((opt_string(scheme), uri@)),
            None => parsed_uri(text@) is None,
        },
{
    let uri = text.parse::<http::Uri>().ok()?;
    Some((uri.scheme_str().map(|s| s.to_string()), uri.to_string()))
}

/// What a text was read as, by its contents.
pub open spec fn opt_uri(parsed: Option<(Option<String>, String)>) -> Option<
    (Option<Seq<char>>, Seq<char>),
> {
    match parsed {
        Some((scheme, uri)) => Some((opt_string(scheme), uri@)),
        None => None,
    }
}

/// The character may stand in the metadata of a request: it is no control character, unless it is
/// a tab.
pub open spec fn is_metadata_char(c: char) -> bool {
    c == '\t' || c as u32 >= 32 && c as u32 != 127
}

pub open spec fn is_metadata(text: Seq<char>) -> bool {
    forall|i: int| 0 <= i < text.len() ==> is_metadata_char(#[trigger] text[i])
}

/// `tonic::metadata::MetadataValue::<Ascii>::try_from` a text: it succeeds exactly where each byte
/// is a tab, or is at least 32 and not 127. All bytes of a character beyond ASCII are.
#[verifier::external_body]
fn check_metadata(text: &str) -> (r: bool)
    ensures
        r == is_metadata(text@),
{
    tonic::metadata::MetadataValue::<tonic::metadata::Ascii>::try_from(text).is_ok()
}

/// What requests carry for a token, where they can.
pub open spec fn bearer_of(token: Seq<char>) -> Option<Seq<char>> {
    if is_metadata("Bearer "@ + token) {
        Some("Bearer "@ + token)
    } else {
        None
    }
}

pub fn bearer(token: &str) -> (r: Option<String>)
    ensures
        opt_string(r) == bearer_of(token@),
{
    let text = join2("Bearer ", token);
    if check_metadata(text.as_str()) {
        Some(text)
    } else {
        None
    }
}

// ---------------------------------------------------------------------------
// Laws
// ---------------------------------------------------------------------------

/// A token can be sent exactly where each of its characters can.
pub proof fn lemma_bearer_is_sent(token: Seq<char>)
    ensures
        bearer_of(token) is Some <==> is_metadata(token),
{
    reveal_strlit("Bearer ");
    let text = "Bearer "@ + token;
    assert forall|i: int| 0 <= i < 7 implies is_metadata_char(#[trigger] text[i]) by {
        assert(text[i] == "Bearer "@[i]);
    }
    if is_metadata(token) {
        assert forall|i: int| 0 <= i < text.len() implies is_metadata_char(
            #[trigger] text[i],
        ) by {
            if i >= 7 {
                assert(text[i] == token[i - 7]);
            }
        }
    }
    if is_metadata(text) {
        assert forall|i: int| 0 <= i < token.len() implies is_metadata_char(
            #[trigger] token[i],
        ) by {
            assert(text[i + 7] == token[i]);
        }
    }
}

/// Letters, digits and other visible signs can be sent, and so can a space, a tab and whatever is
/// beyond ASCII; a line's end or another control character cannot.
pub proof fn lemma_what_can_be_sent(c: char)
    ensures
        ' ' <= c <= '~' ==> is_metadata_char(c),
        c as u32 >= 128 ==> is_metadata_char(c),
        is_metadata_char('\t'),
        !is_metadata_char('\n'),
        !is_metadata_char('\r'),
        c as u32 == 127 ==> !is_metadata_char(c),
        (c as u32) < 32 && c != '\t' ==> !is_metadata_char(c),
{
}

/// A token is sent behind one word that says what it is, and is itself not changed.
pub proof fn lemma_token_follows_word(token: Seq<char>)
    ensures
        bearer_of(token) is Some ==> bearer_of(token)->0 == "Bearer "@ + token,
        bearer_of(token) is None ==> exists|i: int|
            0 <= i < token.len() && !is_metadata_char(#[trigger] token[i]),
{
    lemma_bearer_is_sent(token);
}

} // verus!
