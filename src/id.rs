//! Typed, time-ordered entity identifiers, written `<kind>#<ulid>`.
use vstd::prelude::*;
use vstd::string::*;
use vstd::arithmetic::power2::pow2;

use crate::errors::DynamoDbErrors;

verus! {

/// The character between the kind tag and the unique part of an identifier.
pub const SEPARATOR: char = '#';

/// Length of the Crockford base32 text of a ULID.
pub const ULID_LEN: usize = 26;

/// The Crockford base32 digits, by value.
pub open spec fn crockford_alphabet() -> Seq<char> {
    seq![
        '0', '1', '2', '3', '4', '5', '6', '7', '8', '9', 'A', 'B', 'C', 'D', 'E', 'F', 'G', 'H',
        'J', 'K', 'M', 'N', 'P', 'Q', 'R', 'S', 'T', 'V', 'W', 'X', 'Y', 'Z',
    ]
}

/// The text of a ULID value: its 26 base32 digits, most significant first
/// (the first digit holds the top 3 bits).
pub open spec fn ulid_text(u: u128) -> Seq<char> {
    Seq::new(
        26,
        |i: int| crockford_alphabet()[((u as nat) / pow2((5 * (25 - i)) as nat)) as int % 32],
    )
}

/// The value that `ulid::Ulid::from_string` decodes from a text, if any.
pub uninterp spec fn ulid_decode(s: Seq<char>) -> Option<u128>;

#[verifier::external_type_specification]
#[verifier::external_body]
pub struct ExDecodeError(ulid::DecodeError);

/// Relies on `ulid::Ulid::new`: a ULID made of the current time and random bits.
#[verifier::external_body]
fn fresh_ulid() -> (r: u128) {
    ulid::Ulid::new().0
}

/// Relies on `ulid::Ulid::to_string`: each of the 26 characters is the base32
/// digit of 5 bits of the value, most significant first.
#[verifier::external_body]
fn encode_ulid(u: u128) -> (r: String)
    ensures
        r@ == ulid_text(u),
        r@.len() == ULID_LEN,
{
    ulid::Ulid(u).to_string()
}

/// Relies on `ulid::Ulid::from_string`: it decodes base32 text, gives back
/// the value of every text that `to_string` produced, and refuses a text of
/// another length than 26 (by bytes; a non-ASCII character is refused too).
#[verifier::external_body]
fn decode_ulid(s: &str) -> (r: Result<u128, ulid::DecodeError>)
    ensures
        r is Ok <==> ulid_decode(s@) is Some,
        r is Ok ==> r->Ok_0 == ulid_decode(s@)->0,
        forall|u: u128| #[trigger] ulid_text(u) == s@ ==> r is Ok && r->Ok_0 == u,
        s@.len() != ULID_LEN ==> r is Err,
{
    ulid::Ulid::from_string(s).map(|u| u.0)
}

/// True when `s` holds no separator.
pub open spec fn no_separator(s: Seq<char>) -> bool {
    forall|i: int| 0 <= i < s.len() ==> s[i] != SEPARATOR
}

/// `<kind>#<ulid text>`.
pub open spec fn id_text(kind: Seq<char>, u: u128) -> Seq<char> {
    kind + seq![SEPARATOR] + ulid_text(u)
}

/// The stored text of an identifier.
pub open spec fn id_str(id: IdView) -> Seq<char> {
    id_text(id.kind, id.ulid)
}

/// `<kind>#`.
pub open spec fn prefix_text(kind: Seq<char>) -> Seq<char> {
    kind.push(SEPARATOR)
}

/// The text before the first separator and the text after it, when there is one.
pub open spec fn split_spec(s: Seq<char>) -> Option<(Seq<char>, Seq<char>)> {
    if exists|i: int| 0 <= i < s.len() && s[i] == SEPARATOR && no_separator(s.subrange(0, i)) {
        let i = choose|i: int| 0 <= i < s.len() && s[i] == SEPARATOR && no_separator(s.subrange(0, i));
        Some((s.subrange(0, i), s.subrange(i + 1, s.len() as int)))
    } else {
        None
    }
}

/// The identifier that a text denotes, if it denotes one.
pub open spec fn parse_spec(s: Seq<char>) -> Option<IdView> {
    match split_spec(s) {
        Some((kind, rest)) => match ulid_decode(rest) {
            Some(u) => Some(IdView { kind, ulid: u }),
            None => None,
        },
        None => None,
    }
}

/// An identifier as a kind text and a ULID value.
pub struct IdView {
    pub kind: Seq<char>,
    pub ulid: u128,
}

/// The tag naming the kind of entity an identifier belongs to.
#[derive(Debug)]
pub struct Kind(String);

impl View for Kind {
    type V = Seq<char>;

    closed spec fn view(&self) -> Seq<char> {
        self.0@
    }
}

impl Kind {
    pub fn from_string(kind: &str) -> (r: Kind)
        ensures
            r@ == kind@,
    {
        Kind(String::from_str(kind))
    }

    pub fn as_str(&self) -> (r: &str)
        ensures
            r@ == self@,
    {
        self.0.as_str()
    }
}

impl Clone for Kind {
    fn clone(&self) -> (r: Self)
        ensures
            r == *self,
    {
        Kind(self.0.clone())
    }
}

impl PartialEq for Kind {
    fn eq(&self, other: &Kind) -> (r: bool) {
        self.0 == other.0
    }
}

impl vstd::std_specs::cmp::PartialEqSpecImpl for Kind {
    open spec fn obeys_eq_spec() -> bool {
        true
    }

    open spec fn eq_spec(&self, other: &Kind) -> bool {
        self@ == other@
    }
}

/// Unique identifier across all entities, stored as `<kind>#<ulid>`.
#[derive(Debug)]
pub struct ID {
    kind: Kind,
    ulid: u128,
}

impl View for ID {
    type V = IdView;

    closed spec fn view(&self) -> IdView {
        IdView { kind: self.kind@, ulid: self.ulid }
    }
}

impl Clone for ID {
    fn clone(&self) -> (r: Self)
        ensures
            r == *self,
    {
        proof {
            use_type_invariant(self);
        }
        ID { kind: self.kind.clone(), ulid: self.ulid }
    }
}

impl PartialEq for ID {
    fn eq(&self, other: &ID) -> (r: bool) {
        self.ulid == other.ulid && self.kind == other.kind
    }
}

impl vstd::std_specs::cmp::PartialEqSpecImpl for ID {
    open spec fn obeys_eq_spec() -> bool {
        true
    }

    open spec fn eq_spec(&self, other: &ID) -> bool {
        self@ == other@
    }
}

/// An identifier whose kind holds no separator: its text parses back to it.
pub open spec fn valid_id(id: IdView) -> bool {
    no_separator(id.kind)
}

impl ID {
    /// Every identifier is valid; `use_type_invariant` brings this fact in.
    #[verifier::type_invariant]
    pub open spec fn is_valid(&self) -> bool {
        valid_id(self@)
    }

    /// A fresh identifier of the given kind, which must hold no separator.
    pub fn new(kind: &str) -> (r: ID)
        requires
            no_separator(kind@),
        ensures
            r@.kind == kind@,
    {
        ID { kind: Kind::from_string(kind), ulid: fresh_ulid() }
    }

    pub fn kind(&self) -> (r: &Kind)
        ensures
            r@ == self@.kind,
    {
        &self.kind
    }

    pub fn ulid(&self) -> (r: u128)
        ensures
            r == self@.ulid,
    {
        self.ulid
    }

    /// Splits a text at its first separator.
    pub fn split(value: &str) -> (r: Option<(String, String)>)
        ensures
            match split_spec(value@) {
                Some((kind, rest)) => r matches Some((k, t)) && k@ == kind && t@ == rest,
                None => r is None,
            },
    {
        let ghost s = value@;
        let n = value.unicode_len();
        let mut i: usize = 0;
        while i < n
            invariant
                n == s.len(),
                s == value@,
                0 <= i <= n,
                no_separator(s.subrange(0, i as int)),
            decreases n - i,
        {
            if value.get_char(i) == SEPARATOR {
                let kind = value.substring_char(0, i);
                let rest = value.substring_char(i + 1, n);
                proof {
                    assert forall|j: int|
                        0 <= j < s.len() && s[j] == SEPARATOR && no_separator(
                            s.subrange(0, j),
                        ) implies j == i by {
                        if j < i {
                            assert(s.subrange(0, i as int)[j] == s[j]);
                        }
                        if j > i {
                            assert(s.subrange(0, j)[i as int] == s[i as int]);
                        }
                    }
                }
                return Some((String::from_str(kind), String::from_str(rest)));
            }
            proof {
                let t = s.subrange(0, i + 1);
                assert forall|j: int| 0 <= j < i + 1 implies #[trigger] t[j] != SEPARATOR by {
                    if j < i {
                        assert(s.subrange(0, i as int)[j] == s[j]);
                    }
                }
            }
            i += 1;
        }
        proof {
            assert(s.subrange(0, n as int) =~= s);
        }
        None
    }

    /// Parses `<kind>#<ulid>`; the kind is the text before the first separator.
    pub fn from_string(value: &str) -> (r: Result<ID, DynamoDbErrors>)
        ensures
            r is Ok <==> parse_spec(value@) is Some,
            r is Ok ==> r->Ok_0@ == parse_spec(value@)->0,
            r is Err ==> r->Err_0 is UnexpectedDataFormat,
            match split_spec(value@) {
                Some((_, rest)) => rest.len() != ULID_LEN ==> r is Err,
                None => r is Err,
            },
            forall|kind: Seq<char>, u: u128|
                no_separator(kind) && value@ == #[trigger] id_text(kind, u) ==> r is Ok
                    && r->Ok_0@ == (IdView { kind, ulid: u }),
    {
        proof {
            assert forall|kind: Seq<char>, u: u128|
                no_separator(kind) && value@ == #[trigger] id_text(
                    kind,
                    u,
                ) implies split_spec(value@) == Some((kind, ulid_text(u))) by {
                lemma_split_id_text(kind, u);
            }
        }
        match ID::split(value) {
            Some((kind, rest)) => match decode_ulid(rest.as_str()) {
                Ok(u) => Ok(ID { kind: Kind(kind), ulid: u }),
                Err(_) => Err(DynamoDbErrors::UnexpectedDataFormat(String::from_str("invalid ulid in ID"))),
            },
            None => Err(DynamoDbErrors::UnexpectedDataFormat(String::from_str("missing separator in ID"))),
        }
    }

    /// `<kind>#<ulid>`.
    pub fn to_string(&self) -> (r: String)
        ensures
            r@ == id_text(self@.kind, self@.ulid),
            r@.len() == self@.kind.len() + 1 + ULID_LEN,
            r@ != prefix_text(self@.kind),
    {
        let mut s = self.kind.0.clone();
        s.append("#");
        let u = encode_ulid(self.ulid);
        s.append(u.as_str());
        proof {
            reveal_strlit("#");
            assert(s@ =~= id_text(self@.kind, self@.ulid));
        }
        s
    }

    /// `<kind>#`: the start shared by every identifier of a kind.
    pub fn prefix(kind: &str) -> (r: String)
        ensures
            r@ == prefix_text(kind@),
    {
        let mut s = String::from_str(kind);
        s.append("#");
        proof {
            reveal_strlit("#");
            assert(s@ =~= prefix_text(kind@));
        }
        s
    }

    pub fn has_type_name(&self, kind_name: &str) -> (r: bool)
        ensures
            r == (self@.kind == kind_name@),
    {
        self.kind.0 == String::from_str(kind_name)
    }
}

/// Splitting the text of an identifier whose kind holds no separator gives
/// back its kind and its ULID text.
pub proof fn lemma_split_id_text(kind: Seq<char>, u: u128)
    requires
        no_separator(kind),
    ensures
        split_spec(id_text(kind, u)) == Some((kind, ulid_text(u))),
{
    let s = id_text(kind, u);
    let i = kind.len() as int;
    assert(s[i] == SEPARATOR);
    assert(s.subrange(0, i) =~= kind);
    assert(s.subrange(i + 1, s.len() as int) =~= ulid_text(u));
    assert forall|j: int|
        0 <= j < s.len() && s[j] == SEPARATOR && no_separator(s.subrange(0, j)) implies j == i by {
        if j < i {
            assert(s[j] == kind[j]);
        }
        if j > i {
            assert(s.subrange(0, j)[i] == s[i]);
        }
    }
}

} // verus!
