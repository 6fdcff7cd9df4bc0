//! Namespaced identifiers: a namespace and a name, neither of which holds the
//! separator.

use vstd::prelude::*;
use vstd::slice::slice_subrange;
use vstd::utf8::{
    decode_utf8, encode_scalar, encode_utf8, has_width_1_encoding, is_scalar,
    last_continuation_byte, leading_byte_width_1, leading_byte_width_2, leading_byte_width_3,
    leading_byte_width_4, second_last_continuation_byte, third_last_continuation_byte, valid_utf8,
};

verus! {

/// Why a text is no identifier.
#[derive(Clone, Copy, Debug, PartialEq, Eq, Structural)]
pub enum IdError {
    /// The text holds no separator.
    MissingSeparator,
    /// The namespace holds the separator.
    SeparatorInNamespace,
    /// The name holds the separator.
    SeparatorInName,
}

/// The character between namespace and name.
pub open spec fn separator() -> char {
    ':'
}

/// Whether `s` holds no separator.
pub open spec fn separator_free(s: Seq<char>) -> bool {
    forall|i: int| 0 <= i < s.len() ==> s[i] != separator()
}

/// Whether `i` is the place of the first separator of `s`.
pub open spec fn is_first_separator(s: Seq<char>, i: int) -> bool {
    &&& 0 <= i < s.len()
    &&& s[i] == separator()
    &&& forall|j: int| 0 <= j < i ==> s[j] != separator()
}

/// The place of the first separator of `s`.
pub open spec fn first_separator(s: Seq<char>) -> int {
    choose|i: int| is_first_separator(s, i)
}

/// The written form of an identifier: namespace, separator, name.
pub open spec fn id_text(namespace: Seq<char>, name: Seq<char>) -> Seq<char> {
    namespace + seq![separator()] + name
}

/// What a text reads as: the parts before and after its only separator.
pub open spec fn parse_id(s: Seq<char>) -> Result<(Seq<char>, Seq<char>), IdError> {
    if separator_free(s) {
        Err(IdError::MissingSeparator)
    } else {
        let i = first_separator(s);
        let name = s.subrange(i + 1, s.len() as int);
        if separator_free(name) {
            Ok((s.subrange(0, i), name))
        } else {
            Err(IdError::SeparatorInName)
        }
    }
}

/// What a pair of parts makes: an identifier, unless one of them holds the
/// separator.
pub open spec fn check_id(namespace: Seq<char>, name: Seq<char>) -> Result<
    (Seq<char>, Seq<char>),
    IdError,
> {
    if !separator_free(namespace) {
        Err(IdError::SeparatorInNamespace)
    } else if !separator_free(name) {
        Err(IdError::SeparatorInName)
    } else {
        Ok((namespace, name))
    }
}

/// A text with a separator has exactly one first separator.
pub proof fn lemma_first_separator(s: Seq<char>)
    requires
        !separator_free(s),
    ensures
        is_first_separator(s, first_separator(s)),
        forall|i: int| is_first_separator(s, i) ==> i == first_separator(s),
{
    lemma_first_separator_exists(s, s.len() as int);
    let f = first_separator(s);
    assert forall|i: int| is_first_separator(s, i) implies i == f by {
        if i < f {
            assert(s[i] != separator());
        } else if f < i {
            assert(s[f] != separator());
        }
    }
}

proof fn lemma_first_separator_exists(s: Seq<char>, n: int)
    requires
        0 <= n <= s.len(),
        exists|i: int| 0 <= i < n && s[i] == separator(),
    ensures
        exists|i: int| is_first_separator(s, i),
    decreases n,
{
    let w = choose|i: int| 0 <= i < n && s[i] == separator();
    if forall|j: int| 0 <= j < w ==> s[j] != separator() {
        assert(is_first_separator(s, w));
    } else {
        lemma_first_separator_exists(s, w);
    }
}

/// Reading the written form of an identifier gives its parts back.
pub proof fn lemma_parse_text(namespace: Seq<char>, name: Seq<char>)
    requires
        separator_free(namespace),
        separator_free(name),
    ensures
        parse_id(id_text(namespace, name)) == Ok::<(Seq<char>, Seq<char>), IdError>(
            (namespace, name),
        ),
{
    let s = id_text(namespace, name);
    let i = namespace.len() as int;
    assert(s[i] == separator());
    assert(is_first_separator(s, i)) by {
        assert forall|j: int| 0 <= j < i implies s[j] != separator() by {
            assert(s[j] == namespace[j]);
        }
    }
    lemma_first_separator(s);
    assert(s.subrange(0, i) =~= namespace);
    assert(s.subrange(i + 1, s.len() as int) =~= name);
}

/// A text that reads as an identifier is the written form of its parts.
pub proof fn lemma_text_of_parsed(s: Seq<char>)
    requires
        parse_id(s) is Ok,
    ensures
        s == id_text(parse_id(s)->Ok_0.0, parse_id(s)->Ok_0.1),
        separator_free(parse_id(s)->Ok_0.0),
        separator_free(parse_id(s)->Ok_0.1),
{
    lemma_first_separator(s);
    let i = first_separator(s);
    let namespace = s.subrange(0, i);
    let name = s.subrange(i + 1, s.len() as int);
    assert(s =~= id_text(namespace, name));
    assert forall|j: int| 0 <= j < namespace.len() implies namespace[j] != separator() by {
        assert(namespace[j] == s[j]);
    }
}

/// Whether `s` holds the separator.
pub fn has_separator(s: &str) -> (b: bool)
    ensures
        b == !separator_free(s@),
{
    find_separator(s).is_some()
}

/// The place of the first separator of `s`.
pub fn find_separator(s: &str) -> (out: Option<usize>)
    ensures
        out is None <==> separator_free(s@),
        out matches Some(i) ==> is_first_separator(s@, i as int),
{
    let n = s.unicode_len();
    let mut i: usize = 0;
    while i < n
        invariant
            n == s@.len(),
            i <= n,
            forall|j: int| 0 <= j < i ==> s@[j] != separator(),
        decreases n - i,
    {
        if s.get_char(i) == ':' {
            return Some(i);
        }
        i = i + 1;
    }
    None
}

/// A namespaced identifier.
#[derive(Debug)]
pub struct Id {
    namespace: String,
    name: String,
}

impl View for Id {
    type V = (Seq<char>, Seq<char>);

    /// The namespace and the name.
    closed spec fn view(&self) -> (Seq<char>, Seq<char>) {
        (self.namespace@, self.name@)
    }
}

impl Clone for Id {
    fn clone(&self) -> (out: Self)
        ensures
            out == *self,
    {
        Id { namespace: self.namespace.clone(), name: self.name.clone() }
    }
}

impl Default for Id {
    /// The identifier of the empty tile type.
    fn default() -> (id: Id)
        ensures
            id.wf(),
            id@ == ("automancy"@, "none"@),
    {
        Id::none()
    }
}

impl Id {
    /// Neither part holds the separator.
    pub open spec fn wf(&self) -> bool {
        separator_free(self@.0) && separator_free(self@.1)
    }

    /// The written form: namespace, separator, name.
    pub open spec fn text(&self) -> Seq<char> {
        id_text(self@.0, self@.1)
    }

    /// The identifier of the empty tile type.
    pub fn none() -> (id: Id)
        ensures
            id.wf(),
            id@ == ("automancy"@, "none"@),
    {
        let namespace = "automancy";
        let name = "none";
        proof {
            lemma_word_automancy();
            lemma_word_none();
        }
        Id { namespace: namespace.to_owned(), name: name.to_owned() }
    }

    /// The identifier `name` in the engine's own namespace.
    pub fn automancy(name: String) -> (out: Result<Id, IdError>)
        ensures
            out matches Ok(id) ==> id.wf() && id@ == ("automancy"@, name@),
            out is Ok <==> separator_free(name@),
            out matches Err(e) ==> e == IdError::SeparatorInName,
    {
        if has_separator(name.as_str()) {
            Err(IdError::SeparatorInName)
        } else {
            let namespace = "automancy";
            proof {
                lemma_word_automancy();
            }
            Ok(Id { namespace: namespace.to_owned(), name })
        }
    }

    /// Reads `namespace:name`.
    pub fn from_str(string: &str) -> (out: Result<Id, IdError>)
        ensures
            out matches Ok(id) ==> id.wf() && parse_id(string@) == Ok::<
                (Seq<char>, Seq<char>),
                IdError,
            >(id@) && id.text() == string@,
            out matches Err(e) ==> parse_id(string@) == Err::<(Seq<char>, Seq<char>), IdError>(e),
    {
        match find_separator(string) {
            None => Err(IdError::MissingSeparator),
            Some(i) => {
                proof {
                    lemma_first_separator(string@);
                }
                let n = string.unicode_len();
                let namespace = string.substring_char(0, i);
                let name = string.substring_char(i + 1, n);
                if has_separator(name) {
                    Err(IdError::SeparatorInName)
                } else {
                    proof {
                        lemma_text_of_parsed(string@);
                    }
                    Ok(Id { namespace: namespace.to_owned(), name: name.to_owned() })
                }
            },
        }
    }

    /// Makes an identifier of its two parts.
    pub fn new(namespace: String, name: String) -> (out: Result<Id, IdError>)
        ensures
            out matches Ok(id) ==> id.wf() && check_id(namespace@, name@) == Ok::<
                (Seq<char>, Seq<char>),
                IdError,
            >(id@),
            out matches Err(e) ==> check_id(namespace@, name@) == Err::<
                (Seq<char>, Seq<char>),
                IdError,
            >(e),
    {
        if has_separator(namespace.as_str()) {
            Err(IdError::SeparatorInNamespace)
        } else if has_separator(name.as_str()) {
            Err(IdError::SeparatorInName)
        } else {
            Ok(Id { namespace, name })
        }
    }

    /// The namespace.
    pub fn namespace(&self) -> (s: &str)
        ensures
            s@ == self@.0,
    {
        self.namespace.as_str()
    }

    /// The name.
    pub fn name(&self) -> (s: &str)
        ensures
            s@ == self@.1,
    {
        self.name.as_str()
    }

    /// The written form: namespace, separator, name.
    pub fn to_string(&self) -> (s: String)
        ensures
            s@ == self.text(),
    {
        let mut s = self.namespace.clone();
        let sep = ":";
        proof {
            reveal_strlit(":");
            assert(sep@ =~= seq![separator()]);
        }
        s.append(sep);
        s.append(self.name.as_str());
        s
    }

    /// Whether the two identifiers have the same parts.
    pub fn same(&self, other: &Id) -> (b: bool)
        ensures
            b == (self@ == other@),
    {
        self.namespace == other.namespace && self.name == other.name
    }
}

/// The two parts of an identifier as they were read, not yet held to the
/// rule that neither holds the separator.
#[derive(Debug)]
pub struct RawId {
    pub namespace: String,
    pub name: String,
}

impl View for RawId {
    type V = (Seq<char>, Seq<char>);

    open spec fn view(&self) -> (Seq<char>, Seq<char>) {
        (self.namespace@, self.name@)
    }
}

/// What `String::from_utf8_lossy` makes of `bytes`: their text, with the
/// replacement character in place of whatever is no UTF-8.
pub uninterp spec fn utf8_lossy(bytes: Seq<u8>) -> Seq<char>;

/// `String::from_utf8_lossy`: the text of `bytes`, with the replacement
/// character in place of whatever is no UTF-8; bytes that are UTF-8 are read
/// as they are.
#[verifier::external_body]
fn lossy_text(bytes: &[u8]) -> (out: String)
    ensures
        out@ == utf8_lossy(bytes@),
        valid_utf8(bytes@) ==> out@ == decode_utf8(bytes@),
{
    String::from_utf8_lossy(bytes).into_owned()
}

/// The text that `bytes` are read as: the text that they encode where they
/// are UTF-8, and else what `String::from_utf8_lossy` makes of them.
pub open spec fn record_text(bytes: Seq<u8>) -> Seq<char> {
    if valid_utf8(bytes) {
        decode_utf8(bytes)
    } else {
        utf8_lossy(bytes)
    }
}

/// The bytes of the record of an identifier: namespace, separator, name, and
/// a zero byte.
pub open spec fn record_bytes(namespace: Seq<char>, name: Seq<char>) -> Seq<u8> {
    encode_utf8(namespace) + seq![0x3Au8] + encode_utf8(name) + seq![0u8]
}

/// Whether `text` holds no character whose number is zero.
pub open spec fn zero_free(text: Seq<char>) -> bool {
    forall|i: int| 0 <= i < text.len() ==> text[i] as u32 != 0
}

/// Whether `i` is the place of the first zero byte of `bytes`.
pub open spec fn is_first_zero(bytes: Seq<u8>, i: int) -> bool {
    &&& 0 <= i < bytes.len()
    &&& bytes[i] == 0
    &&& forall|j: int| 0 <= j < i ==> bytes[j] != 0
}

/// The parts that a text stands for: what comes before its first separator,
/// and what comes between that and the next separator or the end. None where
/// the text holds no separator.
pub open spec fn raw_parts(text: Seq<char>) -> Option<(Seq<char>, Seq<char>)> {
    if separator_free(text) {
        None
    } else {
        let i = first_separator(text);
        let rest = text.subrange(i + 1, text.len() as int);
        let name = if separator_free(rest) {
            rest
        } else {
            rest.subrange(0, first_separator(rest))
        };
        Some((text.subrange(0, i), name))
    }
}

/// The parts that the bytes of a record stand for: those of the text before
/// the first zero byte. None where there is no zero byte.
pub open spec fn record_parts(bytes: Seq<u8>) -> Option<(Seq<char>, Seq<char>)> {
    if exists|i: int| is_first_zero(bytes, i) {
        let end = choose|i: int| is_first_zero(bytes, i);
        raw_parts(record_text(bytes.subrange(0, end)))
    } else {
        None
    }
}

/// The place of the first zero byte of `bytes` from `from` on.
pub fn find_zero(bytes: &[u8], from: usize) -> (out: Option<usize>)
    requires
        from <= bytes@.len(),
    ensures
        out is None <==> forall|j: int| from <= j < bytes@.len() ==> bytes@[j] != 0,
        out matches Some(i) ==> from <= i < bytes@.len() && bytes@[i as int] == 0 && forall|j: int|
            from <= j < i ==> bytes@[j] != 0,
{
    let n = bytes.len();
    let mut i: usize = from;
    while i < n
        invariant
            n == bytes@.len(),
            from <= i <= n,
            forall|j: int| from <= j < i ==> bytes@[j] != 0,
        decreases n - i,
    {
        if bytes[i] == 0 {
            return Some(i);
        }
        i = i + 1;
    }
    None
}

impl RawId {
    /// The parts of `id`.
    pub fn from_id(id: Id) -> (raw: RawId)
        ensures
            raw@ == id@,
    {
        RawId { namespace: id.namespace, name: id.name }
    }

    /// The identifier with these parts, unless one of them holds the
    /// separator.
    pub fn into_id(self) -> (out: Result<Id, IdError>)
        ensures
            out matches Ok(id) ==> id.wf() && check_id(self@.0, self@.1) == Ok::<
                (Seq<char>, Seq<char>),
                IdError,
            >(id@),
            out matches Err(e) ==> check_id(self@.0, self@.1) == Err::<
                (Seq<char>, Seq<char>),
                IdError,
            >(e),
    {
        Id::new(self.namespace, self.name)
    }

    /// The bytes of a record: namespace, separator, name, and a zero byte.
    pub fn to_bytes(self) -> (bytes: Vec<u8>)
        ensures
            bytes@ == record_bytes(self@.0, self@.1),
            bytes@ == encode_utf8(self@.0) + seq![0x3Au8] + encode_utf8(self@.1) + seq![0u8],
    {
        let mut bytes = self.namespace.as_str().as_bytes_vec();
        let mut name = self.name.as_str().as_bytes_vec();
        bytes.push(0x3A);
        bytes.append(&mut name);
        bytes.push(0);
        assert(bytes@ =~= encode_utf8(self@.0) + seq![0x3Au8] + encode_utf8(self@.1) + seq![0u8]);
        bytes
    }

    /// The parts that `text` stands for: what comes before its first
    /// separator, and what comes between that and the next separator or the
    /// end; `None` where `text` holds no separator.
    pub fn from_text(text: &str) -> (out: Option<RawId>)
        ensures
            (match out {
                Some(raw) => Some(raw@),
                None => None,
            }) == raw_parts(text@),
    {
        let i = match find_separator(text) {
            Some(i) => i,
            None => {
                return None;
            },
        };
        proof {
            lemma_first_separator(text@);
        }
        let n = text.unicode_len();
        let namespace = text.substring_char(0, i);
        let rest = text.substring_char(i + 1, n);
        let name = match find_separator(rest) {
            Some(j) => {
                proof {
                    lemma_first_separator(rest@);
                }
                rest.substring_char(0, j)
            },
            None => rest,
        };
        Some(RawId { namespace: namespace.to_owned(), name: name.to_owned() })
    }

    /// The parts that the bytes of a record stand for: those of the text
    /// before the first zero byte; `None` where there is no zero byte, or the
    /// text holds no separator.
    pub fn from_bytes(bytes: &[u8]) -> (out: Option<RawId>)
        ensures
            (match out {
                Some(raw) => Some(raw@),
                None => None,
            }) == record_parts(bytes@),
            forall|end: int|
                is_first_zero(bytes@, end) && valid_utf8(#[trigger] bytes@.subrange(0, end)) ==> (match out {
                    Some(raw) => Some(raw@),
                    None => None,
                }) == raw_parts(decode_utf8(bytes@.subrange(0, end))),
    {
        let end = match find_zero(bytes, 0) {
            Some(end) => end,
            None => {
                assert(!exists|i: int| is_first_zero(bytes@, i));
                return None;
            },
        };
        proof {
            assert(is_first_zero(bytes@, end as int));
            let chosen = choose|i: int| is_first_zero(bytes@, i);
            if chosen < end {
                assert(bytes@[chosen] != 0);
            } else if end < chosen {
                assert(bytes@[end as int] != 0);
            }
        }
        proof {
            assert forall|other: int| is_first_zero(bytes@, other) implies other == end by {
                if other < end {
                    assert(bytes@[other] != 0);
                } else if end < other {
                    assert(bytes@[end as int] != 0);
                }
            }
        }
        let text = lossy_text(slice_subrange(bytes, 0, end));
        RawId::from_text(text.as_str())
    }

    /// The records that `bytes` hold, one after the other, each ending with
    /// its zero byte; `None` where one of them holds no separator, or bytes
    /// are left behind the last zero byte.
    pub fn convert(bytes: &[u8]) -> (out: Option<Vec<RawId>>)
        ensures
            (match out {
                Some(records) => Some(Seq::new(records@.len(), |i: int| records@[i]@)),
                None => None,
            }) == records_in(bytes@),
    {
        let mut records: Vec<RawId> = Vec::new();
        let n = bytes.len();
        let mut pos: usize = 0;
        proof {
            assert(bytes@.subrange(0, n as int) =~= bytes@);
            let none = Seq::new(records@.len(), |i: int| records@[i]@);
            if records_in(bytes@) is Some {
                assert(none + records_in(bytes@)->Some_0 =~= records_in(bytes@)->Some_0);
            }
        }
        while pos < n
            invariant
                n == bytes@.len(),
                pos <= n,
                records_in(bytes@) == with_records(
                    Seq::new(records@.len(), |i: int| records@[i]@),
                    records_in(bytes@.subrange(pos as int, n as int)),
                ),
            decreases n - pos,
        {
            let ghost rest = bytes@.subrange(pos as int, n as int);
            let ghost front = Seq::new(records@.len(), |i: int| records@[i]@);
            let end = match find_zero(bytes, pos) {
                Some(end) => end,
                None => {
                    assert(!exists|i: int| is_first_zero(rest, i)) by {
                        if exists|i: int| is_first_zero(rest, i) {
                            let i = choose|i: int| is_first_zero(rest, i);
                            assert(bytes@[pos + i] == rest[i]);
                        }
                    }
                    return None;
                },
            };
            proof {
                assert(is_first_zero(rest, end - pos)) by {
                    assert forall|j: int| 0 <= j < end - pos implies rest[j] != 0 by {
                        assert(rest[j] == bytes@[pos + j]);
                    }
                }
                let chosen = choose|i: int| is_first_zero(rest, i);
                if chosen < end - pos {
                    assert(rest[chosen] != 0);
                } else if end - pos < chosen {
                    assert(rest[end - pos] != 0);
                }
                assert(rest.subrange(0, end - pos) =~= bytes@.subrange(pos as int, end as int));
                assert(rest.subrange(end - pos + 1, rest.len() as int) =~= bytes@.subrange(
                    end as int + 1,
                    n as int,
                ));
            }
            let text = lossy_text(slice_subrange(bytes, pos, end));
            match RawId::from_text(text.as_str()) {
                Some(raw) => {
                    proof {
                        let back = records_in(bytes@.subrange(end as int + 1, n as int));
                        if back is Some {
                            assert(front + (seq![raw@] + back->Some_0) =~= front.push(raw@)
                                + back->Some_0);
                        }
                    }
                    records.push(raw);
                    proof {
                        assert(Seq::new(records@.len(), |i: int| records@[i]@) =~= front.push(raw@));
                    }
                },
                None => {
                    return None;
                },
            }
            pos = end + 1;
        }
        proof {
            let all = Seq::new(records@.len(), |i: int| records@[i]@);
            assert(all + Seq::empty() =~= all);
            assert(bytes@.subrange(n as int, n as int).len() == 0);
        }
        Some(records)
    }
}

/// The records that `bytes` hold, one after the other, each ending with its
/// zero byte. None where one of them holds no separator, or bytes are left
/// behind the last zero byte.
pub open spec fn records_in(bytes: Seq<u8>) -> Option<Seq<(Seq<char>, Seq<char>)>>
    decreases bytes.len(),
{
    if bytes.len() == 0 {
        Some(Seq::empty())
    } else if exists|i: int| is_first_zero(bytes, i) {
        let end = choose|i: int| is_first_zero(bytes, i);
        match raw_parts(record_text(bytes.subrange(0, end))) {
            Some(parts) => match records_in(bytes.subrange(end + 1, bytes.len() as int)) {
                Some(others) => Some(seq![parts] + others),
                None => None,
            },
            None => None,
        }
    } else {
        None
    }
}

/// The records that are still to be read, with those that were read before
/// them.
pub open spec fn with_records(
    front: Seq<(Seq<char>, Seq<char>)>,
    back: Option<Seq<(Seq<char>, Seq<char>)>>,
) -> Option<Seq<(Seq<char>, Seq<char>)>> {
    match back {
        Some(others) => Some(front + others),
        None => None,
    }
}

/// No byte of the encoding of a character is zero, unless the number of the
/// character is.
proof fn lemma_scalar_bytes(c: u32)
    by (bit_vector)
    requires
        c != 0,
        is_scalar(c),
    ensures
        has_width_1_encoding(c) ==> leading_byte_width_1(c) != 0,
        leading_byte_width_2(c) != 0,
        leading_byte_width_3(c) != 0,
        leading_byte_width_4(c) != 0,
        last_continuation_byte(c) != 0,
        second_last_continuation_byte(c) != 0,
        third_last_continuation_byte(c) != 0,
{
}

/// The encoding of a text without the character zero holds no zero byte.
pub proof fn lemma_encoded_zero_free(text: Seq<char>)
    requires
        zero_free(text),
    ensures
        forall|j: int| 0 <= j < encode_utf8(text).len() ==> encode_utf8(text)[j] != 0,
    decreases text.len(),
{
    if text.len() > 0 {
        let c = text[0] as u32;
        let rest = text.drop_first();
        assert forall|i: int| 0 <= i < rest.len() implies rest[i] as u32 != 0 by {
            assert(rest[i] == text[i + 1]);
        }
        lemma_encoded_zero_free(rest);
        vstd::utf8::char_is_scalar(text[0]);
        lemma_scalar_bytes(c);
        assert(encode_utf8(text) == encode_scalar(c) + encode_utf8(rest));
    }
}

/// The encoding of two texts, one after the other, is the encoding of the
/// first followed by that of the second.
pub proof fn lemma_encoded_parts(a: Seq<char>, b: Seq<char>)
    ensures
        encode_utf8(a + b) == encode_utf8(a) + encode_utf8(b),
    decreases a.len(),
{
    if a.len() == 0 {
        assert(a + b =~= b);
        assert(encode_utf8(a) + encode_utf8(b) =~= encode_utf8(b));
    } else {
        lemma_encoded_parts(a.drop_first(), b);
        assert((a + b).drop_first() =~= a.drop_first() + b);
        assert((a + b)[0] == a[0]);
        assert(encode_utf8(a + b) =~= encode_utf8(a) + encode_utf8(b));
    }
}

/// The separator is written as one byte.
proof fn lemma_separator_byte()
    ensures
        encode_utf8(seq![separator()]) == seq![0x3Au8],
{
    let text = seq![separator()];
    assert(separator() as u32 == 0x3A);
    assert(leading_byte_width_1(0x3Au32) == 0x3Au8) by (bit_vector);
    assert(text.drop_first() =~= Seq::<char>::empty());
    reveal_with_fuel(encode_utf8, 2);
    assert(encode_utf8(text) =~= seq![0x3Au8]);
}

/// The record of an identifier reads back as its parts, whatever bytes
/// follow it, where neither part holds the separator or the character zero.
pub proof fn law_record_round_trip(namespace: Seq<char>, name: Seq<char>, rest: Seq<u8>)
    requires
        separator_free(namespace),
        separator_free(name),
        zero_free(namespace),
        zero_free(name),
    ensures
        record_parts(record_bytes(namespace, name) + rest) == Some((namespace, name)),
        records_in(record_bytes(namespace, name)) == Some(seq![(namespace, name)]),
{
    let text = id_text(namespace, name);
    let written = encode_utf8(text);
    let record = record_bytes(namespace, name);
    lemma_separator_byte();
    lemma_encoded_parts(namespace, seq![separator()]);
    lemma_encoded_parts(namespace + seq![separator()], name);
    assert(written == encode_utf8(namespace) + seq![0x3Au8] + encode_utf8(name));
    lemma_encoded_zero_free(namespace);
    lemma_encoded_zero_free(name);
    assert forall|j: int| 0 <= j < written.len() implies written[j] != 0 by {
        let first = encode_utf8(namespace).len() as int;
        if j < first {
            assert(written[j] == encode_utf8(namespace)[j]);
        } else if j == first {
            assert(written[j] == 0x3Au8);
        } else {
            assert(written[j] == encode_utf8(name)[j - first - 1]);
        }
    }
    vstd::utf8::encode_utf8_valid_utf8(text);
    vstd::utf8::encode_utf8_decode_utf8(text);
    assert(raw_parts(text) == Some((namespace, name))) by {
        let i = namespace.len() as int;
        assert(text[i] == separator());
        assert(is_first_separator(text, i)) by {
            assert forall|j: int| 0 <= j < i implies text[j] != separator() by {
                assert(text[j] == namespace[j]);
            }
        }
        lemma_first_separator(text);
        assert(text.subrange(0, i) =~= namespace);
        assert(text.subrange(i + 1, text.len() as int) =~= name);
    }
    let end = written.len() as int;
    assert(record =~= written + seq![0u8]);
    lemma_record_front(written, rest);
    lemma_record_front(written, Seq::<u8>::empty());
    assert(written + seq![0u8] + Seq::<u8>::empty() =~= record);
    assert(record.len() > 0);
    assert(records_in(Seq::<u8>::empty()) == Some(Seq::<(Seq<char>, Seq<char>)>::empty()));
    assert(record.subrange(end + 1, record.len() as int) == Seq::<u8>::empty());
    assert(seq![(namespace, name)] + Seq::<(Seq<char>, Seq<char>)>::empty() =~= seq![(namespace, name)]);
}

/// Where bytes without a zero are followed by a zero byte, that is the first
/// zero byte, and they are what stands before it.
proof fn lemma_record_front(written: Seq<u8>, rest: Seq<u8>)
    requires
        forall|j: int| 0 <= j < written.len() ==> written[j] != 0,
    ensures
        ({
            let bytes = written + seq![0u8] + rest;
            let end = choose|i: int| is_first_zero(bytes, i);
            &&& exists|i: int| is_first_zero(bytes, i)
            &&& end == written.len()
            &&& bytes.subrange(0, end) == written
            &&& bytes.subrange(end + 1, bytes.len() as int) == rest
        }),
{
    let bytes = written + seq![0u8] + rest;
    let at = written.len() as int;
    assert(bytes[at] == 0);
    assert(is_first_zero(bytes, at)) by {
        assert forall|j: int| 0 <= j < at implies bytes[j] != 0 by {
            assert(bytes[j] == written[j]);
        }
    }
    let end = choose|i: int| is_first_zero(bytes, i);
    if end < at {
        assert(bytes[end] != 0);
    } else if at < end {
        assert(bytes[at] != 0);
    }
    assert(bytes.subrange(0, end) =~= written);
    assert(bytes.subrange(end + 1, bytes.len() as int) =~= rest);
}

/// The engine's namespace holds no separator.
pub proof fn lemma_word_automancy()
    ensures
        separator_free("automancy"@),
        "automancy"@.len() == 9,
{
    reveal_strlit("automancy");
    let s = "automancy"@;
    assert(s[0] != ':' && s[1] != ':' && s[2] != ':' && s[3] != ':' && s[4] != ':' && s[5] != ':'
        && s[6] != ':' && s[7] != ':' && s[8] != ':');
}

/// The name of the empty tile type holds no separator.
pub proof fn lemma_word_none()
    ensures
        separator_free("none"@),
        "none"@.len() == 4,
{
    reveal_strlit("none");
    let s = "none"@;
    assert(s[0] != ':' && s[1] != ':' && s[2] != ':' && s[3] != ':');
}

} // verus!
