//! The values the survey is made of: dates, flow types, episode keys, ratings
//! and raters.

use vstd::prelude::*;

use crate::errors::ErrorKind;
use crate::text::{chars_of, is_word, parse_bounded, parse_decimal, push_decimal};

verus! {

// ---------------------------------------------------------------------------
// Datestamp
// ---------------------------------------------------------------------------

/// A calendar date written as the number YYYYMMDD. Any number is accepted;
/// it is not checked against the calendar.
#[derive(Copy, Clone, PartialEq, Eq, Hash, Debug, Structural)]
pub struct Datestamp(pub u32);

/// The date that `s` denotes: `s` read as an unsigned decimal number that
/// fits 32 bits.
pub open spec fn datestamp_of(s: Seq<char>) -> Option<Datestamp> {
    match parse_decimal(s, u32::MAX as nat) {
        Some(n) => Some(Datestamp(n as u32)),
        None => None,
    }
}

impl Datestamp {
    /// The date as decimal text.
    pub open spec fn text(self) -> Seq<char> {
        crate::text::decimal_text(self.0 as nat)
    }

    /// Reads a date from decimal text. Fails with `Format` on anything that
    /// is not an unsigned number of at most 32 bits.
    pub fn from_str(s: &str) -> (r: Result<Datestamp, ErrorKind>)
        ensures
            r == match datestamp_of(s@) {
                Some(d) => Ok::<Datestamp, ErrorKind>(d),
                None => Err::<Datestamp, ErrorKind>(ErrorKind::Format),
            },
    {
        let cs: Vec<char> = chars_of(s);
        match parse_bounded(&cs, u32::MAX) {
            Some(n) => Ok(Datestamp(n)),
            None => Err(ErrorKind::Format),
        }
    }

    /// The date as decimal text.
    pub fn to_string(&self) -> (s: String)
        ensures
            s@ == self.text(),
    {
        let mut out: String = String::new();
        push_decimal(&mut out, self.0 as u64);
        assert(out@ =~= self.text());
        out
    }
}

// ---------------------------------------------------------------------------
// FlowType
// ---------------------------------------------------------------------------

/// The kind of end effector an episode was recorded with.
#[derive(Copy, Clone, PartialEq, Eq, Hash, Debug, Structural)]
pub enum FlowType {
    /// Rigid stick.
    StickCam,
    /// OptoForce sensor.
    OptoCam,
    /// BioTac sensor.
    BioCam,
}

/// The flow type that the token `s` names, if it names one.
pub open spec fn flow_type_of(s: Seq<char>) -> Option<FlowType> {
    if s == "stickcam"@ {
        Some(FlowType::StickCam)
    } else if s == "optocam"@ {
        Some(FlowType::OptoCam)
    } else if s == "biocam"@ {
        Some(FlowType::BioCam)
    } else {
        None
    }
}

impl FlowType {
    /// The lower-case token that names the flow type in paths, forms and
    /// logs.
    pub open spec fn token(self) -> Seq<char> {
        match self {
            FlowType::StickCam => "stickcam"@,
            FlowType::OptoCam => "optocam"@,
            FlowType::BioCam => "biocam"@,
        }
    }

    /// The token of the flow type.
    pub fn as_str(&self) -> (s: &'static str)
        ensures
            s@ == self.token(),
    {
        match self {
            FlowType::StickCam => "stickcam",
            FlowType::OptoCam => "optocam",
            FlowType::BioCam => "biocam",
        }
    }

    /// The token of the flow type, as an owned string.
    pub fn to_string(&self) -> (s: String)
        ensures
            s@ == self.token(),
    {
        self.as_str().to_owned()
    }

    /// Reads a flow type from its token. Fails with `Format` on every text
    /// that is not one of the three tokens, letter for letter.
    pub fn from_str(s: &str) -> (r: Result<FlowType, ErrorKind>)
        ensures
            r == match flow_type_of(s@) {
                Some(f) => Ok::<FlowType, ErrorKind>(f),
                None => Err::<FlowType, ErrorKind>(ErrorKind::Format),
            },
    {
        let cs: Vec<char> = chars_of(s);
        FlowType::from_chars(&cs)
    }

    /// Reads a flow type from the characters of its token.
    pub fn from_chars(cs: &Vec<char>) -> (r: Result<FlowType, ErrorKind>)
        ensures
            r == match flow_type_of(cs@) {
                Some(f) => Ok::<FlowType, ErrorKind>(f),
                None => Err::<FlowType, ErrorKind>(ErrorKind::Format),
            },
    {
        if is_word(cs, "stickcam") {
            Ok(FlowType::StickCam)
        } else if is_word(cs, "optocam") {
            Ok(FlowType::OptoCam)
        } else if is_word(cs, "biocam") {
            Ok(FlowType::BioCam)
        } else {
            Err(ErrorKind::Format)
        }
    }
}

/// Each flow type is read back from its own token, and a text that is read
/// as a flow type is that flow type's token.
pub proof fn lemma_flow_token_round_trip(flow: FlowType, s: Seq<char>)
    ensures
        flow_type_of(flow.token()) == Some(flow),
        flow_type_of(s) == Some(flow) <==> s == flow.token(),
{
    reveal_strlit("stickcam");
    reveal_strlit("optocam");
    reveal_strlit("biocam");
    assert("stickcam"@.len() == 8);
    assert("optocam"@.len() == 7);
    assert("biocam"@.len() == 6);
}

/// Each token is made of lower-case letters: it holds no separator, no digit
/// and no sign, and it is not empty.
pub proof fn lemma_flow_token_letters(flow: FlowType)
    ensures
        flow.token().len() >= 6,
        forall|i: int| 0 <= i < flow.token().len() ==> 'a' <= #[trigger] flow.token()[i] <= 'z',
{
    reveal_strlit("stickcam");
    reveal_strlit("optocam");
    reveal_strlit("biocam");
}

// ---------------------------------------------------------------------------
// Episode keys
// ---------------------------------------------------------------------------

/// What identifies an episode: its date, its flow type and its number.
pub type EpisodeKey = (Datestamp, FlowType, u32);

/// Whether two keys name the same episode.
pub fn same_key(a: &EpisodeKey, b: &EpisodeKey) -> (r: bool)
    ensures
        r == (*a == *b),
{
    a.0 == b.0 && a.1 == b.1 && a.2 == b.2
}

/// Whether `keys` holds `key`.
pub fn holds_key(keys: &Vec<EpisodeKey>, key: &EpisodeKey) -> (r: bool)
    ensures
        r == keys@.contains(*key),
{
    let mut i: usize = 0;
    while i < keys.len()
        invariant
            i <= keys.len(),
            forall|j: int| 0 <= j < i ==> keys@[j] != *key,
        decreases keys.len() - i,
    {
        if same_key(&keys[i], key) {
            return true;
        }
        i += 1;
    }
    false
}

// ---------------------------------------------------------------------------
// Likert
// ---------------------------------------------------------------------------

/// A rating of one surface property on the scale from 1 to 5.
#[derive(Copy, Clone, PartialEq, Eq, Hash, Debug, Structural)]
pub struct Likert(pub u8);

/// The rating that `s` denotes: `s` read as an unsigned decimal number of at
/// most 8 bits that lies between 1 and 5.
pub open spec fn likert_of(s: Seq<char>) -> Option<Likert> {
    match parse_decimal(s, u8::MAX as nat) {
        Some(n) => if 1 <= n <= 5 {
            Some(Likert(n as u8))
        } else {
            None
        },
        None => None,
    }
}

impl Likert {
    /// Whether the rating is on the scale.
    pub open spec fn wf(self) -> bool {
        1 <= self.0 <= 5
    }

    /// Whether the rating is on the scale from 1 to 5.
    pub fn on_scale(&self) -> (r: bool)
        ensures
            r == self.wf(),
    {
        1 <= self.0 && self.0 <= 5
    }

    /// Reads a rating. Fails with `Format` on anything that is not a number
    /// from 1 to 5.
    pub fn from_str(s: &str) -> (r: Result<Likert, ErrorKind>)
        ensures
            r == match likert_of(s@) {
                Some(n) => Ok::<Likert, ErrorKind>(n),
                None => Err::<Likert, ErrorKind>(ErrorKind::Format),
            },
            r matches Ok(n) ==> n.wf(),
    {
        let cs: Vec<char> = chars_of(s);
        match parse_bounded(&cs, 255) {
            Some(n) => {
                if 1 <= n && n <= 5 {
                    Ok(Likert(n as u8))
                } else {
                    Err(ErrorKind::Format)
                }
            },
            None => Err(ErrorKind::Format),
        }
    }
}

// ---------------------------------------------------------------------------
// Rating
// ---------------------------------------------------------------------------

/// One answer of a session: the short name of the prompt and the answer
/// given.
#[derive(Clone, PartialEq, Eq, Hash, Debug)]
pub struct Rating {
    /// Short version of the prompt.
    pub short: String,
    /// The answer given.
    pub answer: u8,
}

impl View for Rating {
    type V = (Seq<char>, u8);

    open spec fn view(&self) -> (Seq<char>, u8) {
        (self.short@, self.answer)
    }
}

impl Default for Rating {
    fn default() -> (r: Rating)
        ensures
            r@ == (Seq::<char>::empty(), 0u8),
    {
        Rating { short: String::new(), answer: 0 }
    }
}

/// The views of a list of ratings.
pub open spec fn rating_views(ratings: Seq<Rating>) -> Seq<(Seq<char>, u8)> {
    Seq::new(ratings.len(), |i: int| ratings[i]@)
}

// ---------------------------------------------------------------------------
// User
// ---------------------------------------------------------------------------

/// A rater, known by the name chosen at login. Two users are the same when
/// their names are the same.
#[derive(Clone, PartialEq, Eq, Hash, Debug)]
pub struct User {
    /// Name chosen by the user at the login screen.
    pub name: String,
}

impl View for User {
    type V = Seq<char>;

    open spec fn view(&self) -> Seq<char> {
        self.name@
    }
}

impl Default for User {
    fn default() -> (u: User)
        ensures
            u@ == Seq::<char>::empty(),
    {
        User { name: String::new() }
    }
}

impl User {
    /// The user of the given name.
    pub fn new(name: &str) -> (u: User)
        ensures
            u@ == name@,
    {
        User { name: name.to_owned() }
    }

    /// Whether `self` and `other` are the same user.
    pub fn same(&self, other: &User) -> (r: bool)
        ensures
            r == (self@ == other@),
    {
        self.name == other.name
    }
}

} // verus!
