//! Naming convention for test-scoped resources.
//!
//! A fixed marker substring is appended to caller-chosen base names when test
//! resources are created; any device name or mount path containing that
//! substring is presumed test-generated and safe to destroy.  This module
//! derives marked names, validates them against the control channel's naming
//! constraints, and recognises marked names during cleanup.

use vstd::prelude::*;
use vstd::string::StrSliceExecFns;
use vstd::string::StringExecFns;

verus! {

/// The marker substring appended to test-supplied base names.
pub open spec fn marker() -> Seq<char> {
    "_dm-rs_test_delme"@
}

/// The marker as an executable string slice.
pub fn marker_str() -> (s: &'static str)
    ensures
        s@ == marker(),
{
    "_dm-rs_test_delme"
}

/// `needle` occurs in `hay` starting at position `i`.
pub open spec fn match_at(hay: Seq<char>, needle: Seq<char>, i: int) -> bool {
    &&& 0 <= i
    &&& i + needle.len() <= hay.len()
    &&& hay.subrange(i, i + needle.len()) == needle
}

/// `needle` occurs somewhere in `hay`.
pub open spec fn contains_seq(hay: Seq<char>, needle: Seq<char>) -> bool {
    exists|i: int| match_at(hay, needle, i)
}

/// A name or path is marked when it contains the marker substring.
pub open spec fn is_marked(s: Seq<char>) -> bool {
    contains_seq(s, marker())
}

fn str_match_at(hay: &str, needle: &str, i: usize) -> (r: bool)
    requires
        i + needle@.len() <= hay@.len(),
    ensures
        r == match_at(hay@, needle@, i as int),
{
    let h = hay.unicode_len();
    let n = needle.unicode_len();
    let mut j: usize = 0;
    while j < n
        invariant
            j <= n,
            h == hay@.len(),
            n == needle@.len(),
            i + n <= h,
            forall|k: int| 0 <= k < j ==> hay@[i + k] == needle@[k],
        decreases n - j,
    {
        if hay.get_char(i + j) != needle.get_char(j) {
            proof {
                assert(hay@.subrange(i as int, i + n) == needle@ ==> hay@.subrange(
                    i as int,
                    i + n,
                )[j as int] == needle@[j as int]);
            }
            return false;
        }
        j += 1;
    }
    proof {
        assert(hay@.subrange(i as int, i + n) =~= needle@);
    }
    true
}

/// Substring search: does `hay` contain `needle`?
pub fn contains_str(hay: &str, needle: &str) -> (r: bool)
    ensures
        r == contains_seq(hay@, needle@),
{
    let h = hay.unicode_len();
    let n = needle.unicode_len();
    if n > h {
        return false;
    }
    if n == 0 {
        proof {
            assert(hay@.subrange(0, 0) =~= needle@);
            assert(match_at(hay@, needle@, 0));
        }
        return true;
    }
    let mut i: usize = 0;
    while i <= h - n
        invariant
            1 <= n <= h,
            h == hay@.len(),
            n == needle@.len(),
            i <= h - n + 1,
            forall|j: int| 0 <= j < i ==> !match_at(hay@, needle@, j),
        decreases h - n + 1 - i,
    {
        if str_match_at(hay, needle, i) {
            return true;
        }
        i += 1;
    }
    proof {
        assert forall|j: int| !match_at(hay@, needle@, j) by {
            if 0 <= j && j + needle@.len() <= hay@.len() {
                assert(!match_at(hay@, needle@, j));
            }
        }
    }
    false
}

/// Recognise a marked name or path.
pub fn is_marked_str(s: &str) -> (r: bool)
    ensures
        r == is_marked(s@),
{
    contains_str(s, marker_str())
}

/// Generate a string with the identifying test marker appended.
pub fn test_string(name: &str) -> (r: String)
    ensures
        r@ == name@ + marker(),
{
    let mut namestr = String::from_str(name);
    namestr.append(marker_str());
    namestr
}

/// Appending the marker always yields a marked name, whatever the base.
pub proof fn lemma_appended_marker_is_marked(name: Seq<char>)
    ensures
        is_marked(name + marker()),
{
    let s = name + marker();
    assert(s.subrange(name.len() as int, (name.len() + marker().len()) as int) =~= marker());
    assert(match_at(s, marker(), name.len() as int));
}

/// Longest device name the control channel accepts.
pub const DM_NAME_MAX: usize = 127;

/// Longest device uuid the control channel accepts.
pub const DM_UUID_MAX: usize = 128;

/// Characters the control channel accepts in names and uuids: printable ASCII.
pub open spec fn allowed_char(c: char) -> bool {
    0x20 <= c as u32 && c as u32 <= 0x7e
}

/// A valid device identifier: non-empty, bounded length, restricted
/// character set.
pub open spec fn valid_dm_id(s: Seq<char>, max: int) -> bool {
    &&& 1 <= s.len()
    &&& s.len() <= max
    &&& forall|i: int| 0 <= i < s.len() ==> allowed_char(#[trigger] s[i])
}

/// Why a string was rejected as a device name or uuid.
#[derive(Debug, PartialEq, Eq, Structural, Clone, Copy)]
pub enum NameError {
    Empty,
    TooLong,
    ForbiddenChar,
}

/// The rejection reason for an invalid identifier, in the order the
/// validator checks: emptiness, then length, then character set.
pub open spec fn id_error(s: Seq<char>, max: int) -> NameError {
    if s.len() == 0 {
        NameError::Empty
    } else if s.len() > max {
        NameError::TooLong
    } else {
        NameError::ForbiddenChar
    }
}

fn chars_allowed(s: &str) -> (r: bool)
    ensures
        r == (forall|i: int| 0 <= i < s@.len() ==> allowed_char(#[trigger] s@[i])),
{
    let n = s.unicode_len();
    let mut i: usize = 0;
    while i < n
        invariant
            i <= n,
            n == s@.len(),
            forall|j: int| 0 <= j < i ==> allowed_char(#[trigger] s@[j]),
        decreases n - i,
    {
        let c = s.get_char(i) as u32;
        if c < 0x20 || c > 0x7e {
            return false;
        }
        i += 1;
    }
    true
}

/// A validated device-mapper device name.
#[derive(Debug, Clone)]
pub struct DmNameBuf {
    name: String,
}

impl View for DmNameBuf {
    type V = Seq<char>;

    closed spec fn view(&self) -> Seq<char> {
        self.name@
    }
}

impl DmNameBuf {
    /// Every constructed name satisfies the control channel's constraints.
    pub open spec fn valid(self) -> bool {
        valid_dm_id(self@, DM_NAME_MAX as int)
    }

    /// Validate and construct a device name.
    pub fn new(name: String) -> (r: Result<DmNameBuf, NameError>)
        ensures
            r is Ok <==> valid_dm_id(name@, DM_NAME_MAX as int),
            r matches Ok(n) ==> n@ == name@ && n.valid(),
            r matches Err(e) ==> e == id_error(name@, DM_NAME_MAX as int),
    {
        let len = name.as_str().unicode_len();
        if len == 0 {
            Err(NameError::Empty)
        } else if len > DM_NAME_MAX {
            Err(NameError::TooLong)
        } else if !chars_allowed(name.as_str()) {
            Err(NameError::ForbiddenChar)
        } else {
            Ok(DmNameBuf { name })
        }
    }

    /// The validated name.
    pub fn as_str(&self) -> (s: &str)
        ensures
            s@ == self@,
    {
        self.name.as_str()
    }
}

/// A validated device-mapper device uuid.
#[derive(Debug, Clone)]
pub struct DmUuidBuf {
    uuid: String,
}

impl View for DmUuidBuf {
    type V = Seq<char>;

    closed spec fn view(&self) -> Seq<char> {
        self.uuid@
    }
}

impl DmUuidBuf {
    /// Every constructed uuid satisfies the control channel's constraints.
    pub open spec fn valid(self) -> bool {
        valid_dm_id(self@, DM_UUID_MAX as int)
    }

    /// Validate and construct a device uuid.
    pub fn new(uuid: String) -> (r: Result<DmUuidBuf, NameError>)
        ensures
            r is Ok <==> valid_dm_id(uuid@, DM_UUID_MAX as int),
            r matches Ok(u) ==> u@ == uuid@ && u.valid(),
            r matches Err(e) ==> e == id_error(uuid@, DM_UUID_MAX as int),
    {
        let len = uuid.as_str().unicode_len();
        if len == 0 {
            Err(NameError::Empty)
        } else if len > DM_UUID_MAX {
            Err(NameError::TooLong)
        } else if !chars_allowed(uuid.as_str()) {
            Err(NameError::ForbiddenChar)
        } else {
            Ok(DmUuidBuf { uuid })
        }
    }

    /// The validated uuid.
    pub fn as_str(&self) -> (s: &str)
        ensures
            s@ == self@,
    {
        self.uuid.as_str()
    }
}

/// Generate the test name given the test-supplied base name.
pub fn test_name(name: &str) -> (r: Result<DmNameBuf, NameError>)
    ensures
        r is Ok <==> valid_dm_id(name@ + marker(), DM_NAME_MAX as int),
        r matches Ok(n) ==> n@ == name@ + marker() && n.valid() && is_marked(n@),
        r matches Err(e) ==> e == id_error(name@ + marker(), DM_NAME_MAX as int),
{
    proof {
        lemma_appended_marker_is_marked(name@);
    }
    DmNameBuf::new(test_string(name))
}

/// Generate the test uuid given the test-supplied base name.
pub fn test_uuid(name: &str) -> (r: Result<DmUuidBuf, NameError>)
    ensures
        r is Ok <==> valid_dm_id(name@ + marker(), DM_UUID_MAX as int),
        r matches Ok(u) ==> u@ == name@ + marker() && u.valid() && is_marked(u@),
        r matches Err(e) ==> e == id_error(name@ + marker(), DM_UUID_MAX as int),
{
    proof {
        lemma_appended_marker_is_marked(name@);
    }
    DmUuidBuf::new(test_string(name))
}

} // verus!
