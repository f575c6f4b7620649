//! Names for the resources that a test creates: the caller's base name with
//! the marker behind it.

use vstd::prelude::*;
use crate::marker::{dm_test_id, marker};

verus! {

/// Why a base name was refused.
#[derive(Debug, Clone, Copy, PartialEq, Eq, Structural)]
pub enum NameError {
    /// The base name is empty.
    Empty,
}

/// The name of a test device.
#[derive(Debug)]
pub struct DmNameBuf {
    name: String,
}

/// The UUID of a test device.
#[derive(Debug)]
pub struct DmUuidBuf {
    uuid: String,
}

impl View for DmNameBuf {
    type V = Seq<char>;

    closed spec fn view(&self) -> Seq<char> {
        self.name@
    }
}

impl View for DmUuidBuf {
    type V = Seq<char>;

    closed spec fn view(&self) -> Seq<char> {
        self.uuid@
    }
}

impl DmNameBuf {
    /// The name as a string.
    pub fn as_str(&self) -> (s: &str)
        ensures
            s@ == self@,
    {
        self.name.as_str()
    }
}

impl DmUuidBuf {
    /// The UUID as a string.
    pub fn as_str(&self) -> (s: &str)
        ensures
            s@ == self@,
    {
        self.uuid.as_str()
    }
}

/// `name` with the marker appended.
pub fn test_string(name: &str) -> (tagged: String)
    ensures
        tagged@ == name@ + marker(),
{
    let mut namestr = String::from_str(name);
    namestr.append(dm_test_id());
    namestr
}

/// The device name for the base name `name`: refused exactly if `name` is
/// empty, else `name` with the marker appended.
pub fn test_name(name: &str) -> (made: Result<DmNameBuf, NameError>)
    ensures
        name@.len() == 0 <==> made is Err,
        made matches Ok(buf) ==> buf@ == name@ + marker(),
        made matches Err(e) ==> e == NameError::Empty,
{
    if name.is_empty() {
        Err(NameError::Empty)
    } else {
        Ok(DmNameBuf { name: test_string(name) })
    }
}

/// The device UUID for the base name `name`: refused exactly if `name` is
/// empty, else `name` with the marker appended.
pub fn test_uuid(name: &str) -> (made: Result<DmUuidBuf, NameError>)
    ensures
        name@.len() == 0 <==> made is Err,
        made matches Ok(buf) ==> buf@ == name@ + marker(),
        made matches Err(e) ==> e == NameError::Empty,
{
    if name.is_empty() {
        Err(NameError::Empty)
    } else {
        Ok(DmUuidBuf { uuid: test_string(name) })
    }
}

} // verus!
