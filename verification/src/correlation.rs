//! Correlation identifiers: one opaque, freshly minted token per request.
//!
//! An id is made when its request arrives, is written into every record that
//! the request emits and is echoed on the response. It is never reused.

use uuid::Uuid;
use vstd::prelude::*;

verus! {

/// The response header under which the correlation id of a request is echoed.
pub const REQUEST_ID_HEADER: &'static str = "x-request-id";

/// A character that can stand in a correlation id: printable ASCII without blanks.
pub open spec fn is_token_char(c: char) -> bool {
    '!' <= c <= '~'
}

/// A character is a token character exactly if its code is one of `0x21` to
/// `0x7e`, and no character stands below the first.
proof fn lemma_char_code(c: char)
    ensures
        '\0' <= c,
        is_token_char(c) <==> 0x21 <= c as u32 <= 0x7e,
        c <= '\u{7f}' ==> (c as u8) as u32 == c as u32,
{
}

/// A text that can serve as a correlation id: not empty, token characters only.
pub open spec fn is_token(s: Seq<char>) -> bool {
    &&& s.len() > 0
    &&& forall|i: int| 0 <= i < s.len() ==> is_token_char(#[trigger] s[i])
}

/// A lower-case hexadecimal digit.
pub open spec fn is_lower_hex(c: char) -> bool {
    ||| '0' <= c <= '9'
    ||| 'a' <= c <= 'f'
}

/// The places of the four hyphens in the hyphenated form of a UUID.
pub open spec fn is_hyphen_position(i: int) -> bool {
    i == 8 || i == 13 || i == 18 || i == 23
}

/// The hyphenated lower-case form of a version 4 (random) UUID:
/// `xxxxxxxx-xxxx-4xxx-yxxx-xxxxxxxxxxxx`, where `y` is one of `8`, `9`, `a`, `b`.
pub open spec fn is_uuid_v4_text(s: Seq<char>) -> bool {
    &&& s.len() == 36
    &&& forall|i: int|
        0 <= i < 36 ==> if is_hyphen_position(i) {
            #[trigger] s[i] == '-'
        } else {
            is_lower_hex(s[i])
        }
    &&& s[14] == '4'
    &&& (s[19] == '8' || s[19] == '9' || s[19] == 'a' || s[19] == 'b')
}

/// Draws a random version 4 UUID and renders it.
///
/// Calls `uuid::Uuid::new_v4` and formats the value with its `Display` impl.
/// Trusted: every value that comes back has the hyphenated lower-case form
/// with the version digit `4` and an RFC 4122 variant digit. Nothing is claimed
/// about which value comes back. The call panics if the operating system's
/// random source cannot be read.
#[verifier::external_body]
pub(crate) fn new_v4_text() -> (text: String)
    ensures
        is_uuid_v4_text(text@),
{
    Uuid::new_v4().to_string()
}

/// The hyphenated form of a UUID is a token: it can be echoed in a header
/// as it stands.
pub proof fn lemma_uuid_text_is_token(s: Seq<char>)
    requires
        is_uuid_v4_text(s),
    ensures
        is_token(s),
{
    assert forall|i: int| 0 <= i < s.len() implies is_token_char(#[trigger] s[i]) by {
        if is_hyphen_position(i) {
            assert(s[i] == '-');
        } else {
            assert(is_lower_hex(s[i]));
        }
    }
}

/// The correlation id of one request: an opaque token, made once when the
/// request arrives and never changed.
#[derive(Debug)]
pub struct CorrelationId {
    text: String,
}

impl View for CorrelationId {
    type V = Seq<char>;

    closed spec fn view(&self) -> Seq<char> {
        self.text@
    }
}

impl CorrelationId {
    /// What holds of every value of the type: the text is a token.
    #[verifier::type_invariant]
    pub open spec fn well_formed(self) -> bool {
        is_token(self@)
    }

    /// Mints a fresh id: a random UUID in its hyphenated form. The call
    /// cannot fail short of the operating system's random source failing,
    /// which ends the process.
    pub fn generate() -> (id: CorrelationId)
        ensures
            is_uuid_v4_text(id@),
            is_token(id@),
    {
        let text = new_v4_text();
        proof {
            lemma_uuid_text_is_token(text@);
        }
        CorrelationId { text }
    }

    /// Takes a text as an id, if it is a token: not empty, and made of
    /// printable ASCII characters without blanks.
    pub fn parse(text: &str) -> (id: Option<CorrelationId>)
        ensures
            match id {
                Some(id) => is_token(text@) && id@ == text@,
                None => !is_token(text@),
            },
    {
        broadcast use vstd::string::is_ascii_spec_bytes;

        if !text.is_ascii() {
            proof {
                let i = choose|i: int| 0 <= i < text@.len() && !('\0' <= #[trigger] text@[i] <= '\u{7f}');
                lemma_char_code(text@[i]);
                assert(!is_token_char(text@[i]));
            }
            return None;
        }
        let bytes = text.as_bytes();
        if bytes.len() == 0 {
            return None;
        }
        let mut i: usize = 0;
        while i < bytes.len()
            invariant
                i <= bytes.len(),
                bytes@.len() == text@.len(),
                forall|j: int| 0 <= j < bytes.len() ==> #[trigger] bytes@[j] == text@[j] as u8,
                vstd::string::is_ascii(text),
                forall|j: int| 0 <= j < i ==> is_token_char(#[trigger] text@[j]),
            decreases bytes.len() - i,
        {
            proof {
                assert('\0' <= text@[i as int] <= '\u{7f}');
                lemma_char_code(text@[i as int]);
            }
            if bytes[i] < 0x21 || bytes[i] > 0x7e {
                return None;
            }
            i = i + 1;
        }
        Some(CorrelationId { text: String::from_str(text) })
    }

    /// The id as text.
    pub fn as_str(&self) -> (text: &str)
        ensures
            text@ == self@,
            is_token(self@),
    {
        proof {
            use_type_invariant(self);
        }
        self.text.as_str()
    }

    /// A copy of the id.
    pub fn duplicate(&self) -> (copy: CorrelationId)
        ensures
            copy@ == self@,
    {
        proof {
            use_type_invariant(self);
        }
        CorrelationId { text: self.text.clone() }
    }
}

} // verus!
