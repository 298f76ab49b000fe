//! Object and user references of the authorization store (`type:id`,
//! `type:id#relation`, `type:*`), and the store's error type.

use vstd::prelude::*;

use crate::text::{
    chars_of, concat2, concat3, copy_string, ends_with, find_char, has_char, index_of, is_suffix,
    lemma_index_of_found, lemma_index_of_props,
    str_eq, str_to_string, string_from_range,
};

verus! {

/// Errors of the authorization store.
#[derive(Debug)]
pub enum FgaError {
    BadRequest(String),
    NotFound(String),
    Forbidden(String),
    Unsupported(String),
    Internal(String),
}

/// The mathematical value of an error: its kind and its text.
pub enum FgaErrorV {
    BadRequest(Seq<char>),
    NotFound(Seq<char>),
    Forbidden(Seq<char>),
    Unsupported(Seq<char>),
    Internal(Seq<char>),
}

impl View for FgaError {
    type V = FgaErrorV;

    open spec fn view(&self) -> FgaErrorV {
        match self {
            FgaError::BadRequest(m) => FgaErrorV::BadRequest(m@),
            FgaError::NotFound(m) => FgaErrorV::NotFound(m@),
            FgaError::Forbidden(m) => FgaErrorV::Forbidden(m@),
            FgaError::Unsupported(m) => FgaErrorV::Unsupported(m@),
            FgaError::Internal(m) => FgaErrorV::Internal(m@),
        }
    }
}

impl FgaError {
    /// The text of the error.
    pub fn message(&self) -> (r: String)
        ensures
            r@ == self.spec_message(),
    {
        match self {
            FgaError::BadRequest(m) => copy_string(m),
            FgaError::NotFound(m) => copy_string(m),
            FgaError::Forbidden(m) => copy_string(m),
            FgaError::Unsupported(m) => copy_string(m),
            FgaError::Internal(m) => copy_string(m),
        }
    }

    pub open spec fn spec_message(&self) -> Seq<char> {
        match self {
            FgaError::BadRequest(m) => m@,
            FgaError::NotFound(m) => m@,
            FgaError::Forbidden(m) => m@,
            FgaError::Unsupported(m) => m@,
            FgaError::Internal(m) => m@,
        }
    }

    /// A bad-request error with exactly the text `msg`.
    pub open spec fn is_bad_request(&self, msg: Seq<char>) -> bool {
        self matches FgaError::BadRequest(m) && m@ == msg
    }

    /// An unsupported-feature error with exactly the text `msg`.
    pub open spec fn is_unsupported(&self, msg: Seq<char>) -> bool {
        self matches FgaError::Unsupported(m) && m@ == msg
    }
}

/// A reference to an object, `type:id`.
#[derive(Debug)]
pub struct ObjectRef {
    pub object_type: String,
    pub object_id: String,
}

/// The mathematical value of an object reference.
pub struct ObjectRefV {
    pub object_type: Seq<char>,
    pub object_id: Seq<char>,
}

impl View for ObjectRef {
    type V = ObjectRefV;

    open spec fn view(&self) -> ObjectRefV {
        ObjectRefV { object_type: self.object_type@, object_id: self.object_id@ }
    }
}

/// A reference to a user: a concrete object, the members of a relation on an
/// object (`type:id#relation`), or every object of a type (`type:*`).
#[derive(Debug)]
pub enum UserRef {
    Object(ObjectRef),
    Userset { object: ObjectRef, relation: String },
    Wildcard { object_type: String },
}

/// The mathematical value of a user reference.
pub enum UserRefV {
    Object(ObjectRefV),
    Userset(ObjectRefV, Seq<char>),
    Wildcard(Seq<char>),
}

impl View for UserRef {
    type V = UserRefV;

    open spec fn view(&self) -> UserRefV {
        match self {
            UserRef::Object(o) => UserRefV::Object(o@),
            UserRef::Userset { object, relation } => UserRefV::Userset(object@, relation@),
            UserRef::Wildcard { object_type } => UserRefV::Wildcard(object_type@),
        }
    }
}

pub open spec fn colon() -> char {
    ':'
}

/// `type:id` split at its first colon; `None` unless both parts are non-empty.
pub open spec fn spec_parse_object(s: Seq<char>) -> Option<ObjectRefV> {
    match index_of(s, ':') {
        None => None,
        Some(i) => if i == 0 || i == s.len() - 1 {
            None
        } else {
            Some(ObjectRefV { object_type: s.subrange(0, i), object_id: s.subrange(i + 1, s.len() as int) })
        },
    }
}

pub open spec fn object_error_text(s: Seq<char>) -> Seq<char> {
    "invalid object reference "@ + s
}

pub open spec fn user_error_text(s: Seq<char>) -> Seq<char> {
    "invalid user reference "@ + s
}

pub open spec fn wildcard_suffix() -> Seq<char> {
    seq![':', '*']
}

/// The part of a user reference before its first `#`, or all of it.
pub open spec fn user_base(s: Seq<char>) -> Seq<char> {
    match index_of(s, '#') {
        Some(i) => s.subrange(0, i),
        None => s,
    }
}

/// The parsed value of a user reference, `None` where it is rejected.
pub open spec fn spec_parse_user(s: Seq<char>) -> Option<UserRefV> {
    if is_suffix(wildcard_suffix(), s) {
        if s.len() == 2 {
            None
        } else {
            Some(UserRefV::Wildcard(s.subrange(0, s.len() - 2)))
        }
    } else {
        match index_of(s, '#') {
            Some(i) => match spec_parse_object(s.subrange(0, i)) {
                Some(o) => Some(UserRefV::Userset(o, s.subrange(i + 1, s.len() as int))),
                None => None,
            },
            None => match spec_parse_object(s) {
                Some(o) => Some(UserRefV::Object(o)),
                None => None,
            },
        }
    }
}

/// The text of the error a rejected user reference gets.
pub open spec fn spec_user_error(s: Seq<char>) -> Seq<char> {
    if is_suffix(wildcard_suffix(), s) {
        user_error_text(s)
    } else {
        object_error_text(user_base(s))
    }
}

pub open spec fn spec_object_raw(o: ObjectRefV) -> Seq<char> {
    o.object_type + seq![':'] + o.object_id
}

pub open spec fn spec_user_raw(u: UserRefV) -> Seq<char> {
    match u {
        UserRefV::Object(o) => spec_object_raw(o),
        UserRefV::Userset(o, r) => spec_object_raw(o) + seq!['#'] + r,
        UserRefV::Wildcard(t) => t + seq![':', '*'],
    }
}

pub open spec fn spec_user_type(u: UserRefV) -> Seq<char> {
    match u {
        UserRefV::Object(o) => o.object_type,
        UserRefV::Userset(o, _) => o.object_type,
        UserRefV::Wildcard(t) => t,
    }
}

pub open spec fn spec_user_id(u: UserRefV) -> Seq<char> {
    match u {
        UserRefV::Object(o) => o.object_id,
        UserRefV::Userset(o, _) => o.object_id,
        UserRefV::Wildcard(_) => seq!['*'],
    }
}

pub open spec fn spec_relation_name(u: UserRefV) -> Option<Seq<char>> {
    match u {
        UserRefV::Userset(_, r) => Some(r),
        _ => None,
    }
}

/// Whether the stored user `stored` covers `candidate`.
pub open spec fn spec_user_matches(stored: UserRefV, candidate: UserRefV) -> bool {
    match stored {
        UserRefV::Object(o) => candidate == UserRefV::Object(o),
        UserRefV::Userset(o, r) => candidate == UserRefV::Userset(o, r),
        UserRefV::Wildcard(t) => spec_user_type(candidate) == t,
    }
}

/// The user a stored row stands for.
pub open spec fn spec_stored_user(user_type: Seq<char>, user_id: Seq<char>, user_relation: Seq<char>) -> UserRefV {
    if user_id == seq!['*'] {
        UserRefV::Wildcard(user_type)
    } else if user_relation.len() == 0 {
        UserRefV::Object(ObjectRefV { object_type: user_type, object_id: user_id })
    } else {
        UserRefV::Userset(ObjectRefV { object_type: user_type, object_id: user_id }, user_relation)
    }
}

/// Values of references that survive printing and parsing again.
pub open spec fn object_well_formed(o: ObjectRefV) -> bool {
    &&& o.object_type.len() > 0
    &&& o.object_id.len() > 0
    &&& !has_char(o.object_type, ':')
    &&& !has_char(o.object_type, '#')
    &&& !has_char(o.object_id, '#')
}

pub open spec fn user_well_formed(u: UserRefV) -> bool {
    match u {
        UserRefV::Object(o) => object_well_formed(o) && !is_suffix(wildcard_suffix(), spec_object_raw(o)),
        UserRefV::Userset(o, r) => object_well_formed(o) && !is_suffix(wildcard_suffix(), spec_object_raw(o) + seq!['#'] + r),
        UserRefV::Wildcard(t) => t.len() > 0,
    }
}

proof fn lemma_index_after_prefix(a: Seq<char>, b: Seq<char>, c: char)
    requires
        !has_char(a, c),
    ensures
        index_of(a + seq![c] + b, c) == Some(a.len() as int),
{
    let s = a + seq![c] + b;
    assert(s[a.len() as int] == c);
    assert forall|j: int| 0 <= j < a.len() implies s[j] != c by {
        assert(s[j] == a[j]);
    }
    lemma_index_of_found(s, c, a.len() as int);
}

proof fn lemma_no_char_concat(a: Seq<char>, b: Seq<char>, c: char, d: char)
    requires
        !has_char(a, c),
        !has_char(b, c),
        d != c,
    ensures
        !has_char(a + seq![d] + b, c),
{
    let s = a + seq![d] + b;
    assert forall|j: int| 0 <= j < s.len() implies s[j] != c by {
        if j < a.len() {
            assert(s[j] == a[j]);
        } else if j > a.len() {
            assert(s[j] == b[j - a.len() - 1]);
        }
    }
}

proof fn lemma_parse_object_raw(o: ObjectRefV)
    requires
        object_well_formed(o),
    ensures
        spec_parse_object(spec_object_raw(o)) == Some(o),
{
    let s = spec_object_raw(o);
    lemma_index_after_prefix(o.object_type, o.object_id, ':');
    assert(s.subrange(0, o.object_type.len() as int) =~= o.object_type);
    assert(s.subrange(o.object_type.len() as int + 1, s.len() as int) =~= o.object_id);
}

/// Printing a well-formed user reference and parsing the text gives the same
/// reference back.
pub proof fn lemma_user_ref_round_trip(u: UserRefV)
    requires
        user_well_formed(u),
    ensures
        spec_parse_user(spec_user_raw(u)) == Some(u),
{
    match u {
        UserRefV::Object(o) => {
            let s = spec_object_raw(o);
            lemma_no_char_concat(o.object_type, o.object_id, '#', ':');
            lemma_index_of_props(s, '#');
            lemma_parse_object_raw(o);
        },
        UserRefV::Userset(o, r) => {
            let base = spec_object_raw(o);
            let s = base + seq!['#'] + r;
            lemma_no_char_concat(o.object_type, o.object_id, '#', ':');
            lemma_index_after_prefix(base, r, '#');
            assert(s.subrange(0, base.len() as int) =~= base);
            assert(s.subrange(base.len() as int + 1, s.len() as int) =~= r);
            lemma_parse_object_raw(o);
        },
        UserRefV::Wildcard(t) => {
            let s = t + seq![':', '*'];
            assert(s.subrange(s.len() - 2, s.len() as int) =~= wildcard_suffix());
            assert(s.subrange(0, s.len() - 2) =~= t);
        },
    }
}

/// Printing a well-formed object reference and parsing the text gives the same
/// reference back.
pub proof fn lemma_object_ref_round_trip(o: ObjectRefV)
    requires
        object_well_formed(o),
    ensures
        spec_parse_object(spec_object_raw(o)) == Some(o),
{
    lemma_parse_object_raw(o);
}

pub fn object_ref_eq(a: &ObjectRef, b: &ObjectRef) -> (r: bool)
    ensures
        r == (a@ == b@),
{
    let t = str_eq(a.object_type.as_str(), b.object_type.as_str());
    let i = str_eq(a.object_id.as_str(), b.object_id.as_str());
    t && i
}

pub fn user_ref_eq(a: &UserRef, b: &UserRef) -> (r: bool)
    ensures
        r == (a@ == b@),
{
    match (a, b) {
        (UserRef::Object(x), UserRef::Object(y)) => object_ref_eq(x, y),
        (UserRef::Userset { object: x, relation: p }, UserRef::Userset { object: y, relation: q }) => {
            let o = object_ref_eq(x, y);
            let rel = str_eq(p.as_str(), q.as_str());
            o && rel
        },
        (UserRef::Wildcard { object_type: x }, UserRef::Wildcard { object_type: y }) => str_eq(
            x.as_str(),
            y.as_str(),
        ),
        _ => false,
    }
}

pub fn clone_object_ref(o: &ObjectRef) -> (r: ObjectRef)
    ensures
        r@ == o@,
{
    ObjectRef { object_type: copy_string(&o.object_type), object_id: copy_string(&o.object_id) }
}

pub fn clone_user_ref(u: &UserRef) -> (r: UserRef)
    ensures
        r@ == u@,
{
    match u {
        UserRef::Object(o) => UserRef::Object(clone_object_ref(o)),
        UserRef::Userset { object, relation } => UserRef::Userset {
            object: clone_object_ref(object),
            relation: copy_string(relation),
        },
        UserRef::Wildcard { object_type } => UserRef::Wildcard { object_type: copy_string(object_type) },
    }
}

fn parse_object_chars(v: &[char]) -> (r: Option<ObjectRef>)
    ensures
        match r {
            Some(o) => spec_parse_object(v@) == Some(o@),
            None => spec_parse_object(v@) is None,
        },
{
    match find_char(v, ':') {
        None => None,
        Some(i) => {
            if i == 0 || i == v.len() - 1 {
                None
            } else {
                let t = string_from_range(v, 0, i);
                let id = string_from_range(v, i + 1, v.len());
                Some(ObjectRef { object_type: t, object_id: id })
            }
        },
    }
}

impl ObjectRef {
    /// Parses `type:id`, split at the first colon; both parts must be non-empty.
    pub fn parse(raw: &str) -> (r: Result<ObjectRef, FgaError>)
        ensures
            match r {
                Ok(o) => spec_parse_object(raw@) == Some(o@),
                Err(e) => spec_parse_object(raw@) is None && e.is_bad_request(object_error_text(raw@)),
            },
    {
        let v = chars_of(raw);
        match parse_object_chars(v.as_slice()) {
            Some(o) => Ok(o),
            None => Err(FgaError::BadRequest(concat2("invalid object reference ", raw))),
        }
    }

    /// `type:id`.
    pub fn as_raw(&self) -> (r: String)
        ensures
            r@ == spec_object_raw(self@),
    {
        proof {
            reveal_strlit(":");
            assert(":"@ =~= seq![':']);
        }
        concat3(self.object_type.as_str(), ":", self.object_id.as_str())
    }
}

impl UserRef {
    /// Parses `type:*`, `type:id#relation` (split at the first `#`) or `type:id`.
    pub fn parse(raw: &str) -> (r: Result<UserRef, FgaError>)
        ensures
            match r {
                Ok(u) => spec_parse_user(raw@) == Some(u@),
                Err(e) => spec_parse_user(raw@) is None && e.is_bad_request(spec_user_error(raw@)),
            },
    {
        let v = chars_of(raw);
        let suffix: Vec<char> = vec![':', '*'];
        proof {
            assert(suffix@ =~= wildcard_suffix());
        }
        if ends_with(v.as_slice(), suffix.as_slice()) {
            if v.len() == 2 {
                return Err(FgaError::BadRequest(concat2("invalid user reference ", raw)));
            }
            let prefix = string_from_range(v.as_slice(), 0, v.len() - 2);
            return Ok(UserRef::Wildcard { object_type: prefix });
        }
        match find_char(v.as_slice(), '#') {
            Some(i) => {
                let n = v.len();
                assert(i < n);
                let base = string_from_range(v.as_slice(), 0, i);
                let relation = string_from_range(v.as_slice(), i + 1, n);
                let bv = chars_of(base.as_str());
                match parse_object_chars(bv.as_slice()) {
                    Some(o) => Ok(UserRef::Userset { object: o, relation }),
                    None => Err(FgaError::BadRequest(concat2("invalid object reference ", base.as_str()))),
                }
            },
            None => {
                match parse_object_chars(v.as_slice()) {
                    Some(o) => Ok(UserRef::Object(o)),
                    None => Err(FgaError::BadRequest(concat2("invalid object reference ", raw))),
                }
            },
        }
    }

    /// The printed form of the reference.
    pub fn as_raw(&self) -> (r: String)
        ensures
            r@ == spec_user_raw(self@),
    {
        match self {
            UserRef::Object(o) => o.as_raw(),
            UserRef::Userset { object, relation } => {
                let base = object.as_raw();
                proof {
                    reveal_strlit("#");
                    assert("#"@ =~= seq!['#']);
                }
                concat3(base.as_str(), "#", relation.as_str())
            },
            UserRef::Wildcard { object_type } => {
                proof {
                    reveal_strlit(":*");
                    assert(":*"@ =~= seq![':', '*']);
                }
                concat2(object_type.as_str(), ":*")
            },
        }
    }

    /// The type of the referenced user.
    pub fn user_type(&self) -> (r: &str)
        ensures
            r@ == spec_user_type(self@),
    {
        match self {
            UserRef::Object(o) => o.object_type.as_str(),
            UserRef::Userset { object, .. } => object.object_type.as_str(),
            UserRef::Wildcard { object_type } => object_type.as_str(),
        }
    }

    /// The id of the referenced user; `*` for a wildcard.
    pub fn user_id(&self) -> (r: &str)
        ensures
            r@ == spec_user_id(self@),
    {
        match self {
            UserRef::Object(o) => o.object_id.as_str(),
            UserRef::Userset { object, .. } => object.object_id.as_str(),
            UserRef::Wildcard { .. } => {
                let s = "*";
                proof {
                    reveal_strlit("*");
                    assert(s@ =~= seq!['*']);
                }
                s
            },
        }
    }

    /// The relation of a userset reference.
    pub fn relation_name(&self) -> (r: Option<&str>)
        ensures
            match r {
                Some(s) => spec_relation_name(self@) == Some(s@),
                None => spec_relation_name(self@) is None,
            },
    {
        match self {
            UserRef::Userset { relation, .. } => Some(relation.as_str()),
            _ => None,
        }
    }

    /// Whether this stored user covers `candidate`: the same object, the same
    /// userset, or, for a wildcard, any user of its type.
    pub fn matches(&self, candidate: &UserRef) -> (r: bool)
        ensures
            r == spec_user_matches(self@, candidate@),
    {
        match self {
            UserRef::Object(_) => user_ref_eq(self, candidate),
            UserRef::Userset { .. } => user_ref_eq(self, candidate),
            UserRef::Wildcard { object_type } => str_eq(candidate.user_type(), object_type.as_str()),
        }
    }
}

/// The user a stored row (type, id, relation) stands for: `*` as id is a
/// wildcard, an empty relation an object, anything else a userset.
pub fn stored_user_from_parts(user_type: &str, user_id: &str, user_relation: &str) -> (r: UserRef)
    ensures
        r@ == spec_stored_user(user_type@, user_id@, user_relation@),
{
    let star = "*";
    proof {
        reveal_strlit("*");
        assert(star@ =~= seq!['*']);
    }
    if str_eq(user_id, star) {
        return UserRef::Wildcard { object_type: str_to_string(user_type) };
    }
    let object = ObjectRef { object_type: str_to_string(user_type), object_id: str_to_string(user_id) };
    if user_relation.is_empty() {
        UserRef::Object(object)
    } else {
        UserRef::Userset { object, relation: str_to_string(user_relation) }
    }
}

/// A condition attached to a tuple: its name and its JSON context.
#[derive(Debug)]
pub struct RelationshipCondition {
    pub name: String,
    pub context: Vec<crate::json::JsonMember>,
}

/// A relationship tuple as clients write it.
#[derive(Debug)]
pub struct TupleKey {
    pub user: String,
    pub relation: String,
    pub object: String,
    pub condition: Option<RelationshipCondition>,
}

/// A tuple whose user and object have been parsed.
#[derive(Debug)]
pub struct ParsedTupleKey {
    pub user: UserRef,
    pub relation: String,
    pub object: ObjectRef,
    pub condition: Option<RelationshipCondition>,
}

pub struct TupleV {
    pub user: UserRefV,
    pub relation: Seq<char>,
    pub object: ObjectRefV,
}

impl View for ParsedTupleKey {
    type V = TupleV;

    open spec fn view(&self) -> TupleV {
        TupleV { user: self.user@, relation: self.relation@, object: self.object@ }
    }
}

/// The parsed tuple, or the error of its user (first) or object.
pub open spec fn spec_parse_tuple(user: Seq<char>, relation: Seq<char>, object: Seq<char>) -> Result<TupleV, FgaErrorV> {
    match spec_parse_user(user) {
        None => Err(FgaErrorV::BadRequest(spec_user_error(user))),
        Some(u) => match spec_parse_object(object) {
            None => Err(FgaErrorV::BadRequest(object_error_text(object))),
            Some(o) => Ok(TupleV { user: u, relation, object: o }),
        },
    }
}

impl ParsedTupleKey {
    /// Parses the user and the object of a tuple; the condition is kept.
    pub fn parse(tuple: TupleKey) -> (r: Result<ParsedTupleKey, FgaError>)
        ensures
            match r {
                Ok(p) => spec_parse_tuple(tuple.user@, tuple.relation@, tuple.object@) == Ok::<TupleV, FgaErrorV>(p@)
                    && p.condition == tuple.condition,
                Err(e) => spec_parse_tuple(tuple.user@, tuple.relation@, tuple.object@) == Err::<TupleV, FgaErrorV>(e@),
            },
    {
        let user = match UserRef::parse(tuple.user.as_str()) {
            Ok(u) => u,
            Err(e) => {
                return Err(e);
            },
        };
        let object = match ObjectRef::parse(tuple.object.as_str()) {
            Ok(o) => o,
            Err(e) => {
                return Err(e);
            },
        };
        Ok(ParsedTupleKey { user, relation: tuple.relation, object, condition: tuple.condition })
    }
}

/// A stored wildcard `type:*` stands for the users of that type only.
pub proof fn lemma_wildcard_covers_its_type(t: Seq<char>, candidate: UserRefV)
    requires
        spec_user_matches(UserRefV::Wildcard(t), candidate),
    ensures
        spec_user_type(candidate) == t,
{
}

/// A stored object or userset stands for exactly that user.
pub proof fn lemma_exact_user_matches_itself(stored: UserRefV, candidate: UserRefV)
    requires
        !(stored is Wildcard),
    ensures
        spec_user_matches(stored, candidate) <==> candidate == stored,
{
}

} // verus!
