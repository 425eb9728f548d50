//! The storage engine's side of the work: what its status codes mean, and
//! in what order it is asked to store a record.
//!
//! The engine itself is reached from outside this library. Here stand the
//! decisions: whether a reply of the engine is a success, and what to ask
//! of it next.

use vstd::prelude::*;
use vstd::string::*;

verus! {

/// A failure that the storage engine reported, by its status code.
#[derive(Copy, Clone, Debug, PartialEq, Eq, Structural)]
pub struct Error(pub i16);

/// The address of a record in a data file.
#[derive(Copy, Clone, Debug, PartialEq, Eq, Structural)]
pub struct DatAddr(pub i32);

/// An open data file, by the number under which the engine knows it.
#[derive(Debug, PartialEq, Eq, Structural)]
pub struct DatFile(pub i16);

/// An open index file, by the number under which the engine knows it.
#[derive(Debug, PartialEq, Eq, Structural)]
pub struct IdxFile(pub i16);

/// The file number by which the engine says that it has none to give.
pub const NO_FILE_NUMBER: i16 = -1;

/// What a status code means: zero is success, anything else the error.
pub open spec fn status_result(errcode: i16) -> Result<(), Error> {
    if errcode == 0 {
        Ok(())
    } else {
        Err(Error(errcode))
    }
}

/// Turns a status code into a result: zero is success, anything else the error.
pub fn error(errcode: i16) -> (r: Result<(), Error>)
    ensures
        r == status_result(errcode),
{
    if errcode == 0 {
        Ok(())
    } else {
        Err(Error(errcode))
    }
}

/// The file number that the engine offered, unless it had none to give.
pub fn available(filenum: i16) -> (r: Result<i16, Error>)
    ensures
        r == (if filenum == NO_FILE_NUMBER {
            Err::<i16, Error>(Error(NO_FILE_NUMBER))
        } else {
            Ok::<i16, Error>(filenum)
        }),
{
    if filenum == NO_FILE_NUMBER {
        Err(Error(NO_FILE_NUMBER))
    } else {
        Ok(filenum)
    }
}

/// The character of the decimal digit `d`.
pub open spec fn digit_char(d: int) -> char {
    if d == 0 {
        '0'
    } else if d == 1 {
        '1'
    } else if d == 2 {
        '2'
    } else if d == 3 {
        '3'
    } else if d == 4 {
        '4'
    } else if d == 5 {
        '5'
    } else if d == 6 {
        '6'
    } else if d == 7 {
        '7'
    } else if d == 8 {
        '8'
    } else {
        '9'
    }
}

/// The decimal digits of `n`, the highest first and without leading zeros.
pub open spec fn decimal_digits(n: nat) -> Seq<char>
    decreases n,
{
    if n < 10 {
        seq![digit_char(n as int)]
    } else {
        decimal_digits(n / 10).push(digit_char((n % 10) as int))
    }
}

/// A status code in decimal notation, with a minus sign where it is negative.
pub open spec fn decimal_text(code: i16) -> Seq<char> {
    if code < 0 {
        "-"@ + decimal_digits((-code) as nat)
    } else {
        decimal_digits(code as nat)
    }
}

/// The words that tell of a failure of the engine: `C-Tree error: `, then
/// the status code.
pub open spec fn message_text(code: i16) -> Seq<char> {
    "C-Tree error: "@ + decimal_text(code)
}

/// The decimal digit `d` as a string.
fn digit_str(d: u32) -> (r: &'static str)
    requires
        d < 10,
    ensures
        r@ == seq![digit_char(d as int)],
{
    proof {
        reveal_strlit("0");
        reveal_strlit("1");
        reveal_strlit("2");
        reveal_strlit("3");
        reveal_strlit("4");
        reveal_strlit("5");
        reveal_strlit("6");
        reveal_strlit("7");
        reveal_strlit("8");
        reveal_strlit("9");
    }
    let r = if d == 0 {
        "0"
    } else if d == 1 {
        "1"
    } else if d == 2 {
        "2"
    } else if d == 3 {
        "3"
    } else if d == 4 {
        "4"
    } else if d == 5 {
        "5"
    } else if d == 6 {
        "6"
    } else if d == 7 {
        "7"
    } else if d == 8 {
        "8"
    } else {
        "9"
    };
    assert(r@ =~= seq![digit_char(d as int)]);
    r
}

/// Writes the decimal digits of `n` at the end of `out`.
fn push_decimal(out: &mut String, n: u32)
    ensures
        final(out)@ == old(out)@ + decimal_digits(n as nat),
    decreases n,
{
    if n >= 10 {
        push_decimal(out, n / 10);
    }
    out.append(digit_str(n % 10));
    assert(out@ =~= old(out)@ + decimal_digits(n as nat));
}

impl Error {
    /// The status code that the engine reported.
    pub fn code(&self) -> (r: i16)
        ensures
            r == self.0,
    {
        self.0
    }

    /// The words that tell of this failure.
    pub fn message(&self) -> (r: String)
        ensures
            r@ == message_text(self.0),
    {
        let mut out = String::from_str("C-Tree error: ");
        let code: i32 = self.0 as i32;
        if code < 0 {
            out.append("-");
            push_decimal(&mut out, (-code) as u32);
        } else {
            push_decimal(&mut out, code as u32);
        }
        assert(out@ =~= message_text(self.0));
        out
    }
}

impl DatAddr {
    /// The address that the engine gave for a new record; zero is its way
    /// to say that it gave none.
    pub fn allocated(result: i32) -> (r: Result<DatAddr, Error>)
        ensures
            r == (if result == 0 {
                Err::<DatAddr, Error>(Error(0))
            } else {
                Ok::<DatAddr, Error>(DatAddr(result))
            }),
    {
        if result == 0 {
            Err(Error(0))
        } else {
            Ok(DatAddr(result))
        }
    }
}

impl DatFile {
    /// The data file that is open under `filenum` once the engine has
    /// answered the request to open it with `status`.
    pub fn open(filenum: i16, status: i16) -> (r: Result<DatFile, Error>)
        ensures
            r == (match status_result(status) {
                Ok(_) => Ok::<DatFile, Error>(DatFile(filenum)),
                Err(e) => Err::<DatFile, Error>(e),
            }),
    {
        match error(status) {
            Ok(_) => Ok(DatFile(filenum)),
            Err(e) => Err(e),
        }
    }
}

impl IdxFile {
    /// The index file that is open under `filenum` once the engine has
    /// answered the request to open it with `status`.
    pub fn open(filenum: i16, status: i16) -> (r: Result<IdxFile, Error>)
        ensures
            r == (match status_result(status) {
                Ok(_) => Ok::<IdxFile, Error>(IdxFile(filenum)),
                Err(e) => Err::<IdxFile, Error>(e),
            }),
    {
        match error(status) {
            Ok(_) => Ok(IdxFile(filenum)),
            Err(e) => Err(e),
        }
    }
}

/// What has just happened while a record is stored.
#[derive(Copy, Clone, Debug, PartialEq, Eq, Structural)]
pub enum Event {
    /// Nothing yet: the record is to be stored.
    Start,
    /// The engine answered the request for a new record in the data file.
    Allocated(i32),
    /// The engine answered the request to write the record at the address.
    Written(DatAddr, i16),
    /// The engine answered the request to add the key.
    Indexed(i16),
}

/// What is to be done next while a record is stored.
#[derive(Copy, Clone, Debug, PartialEq, Eq, Structural)]
pub enum Action {
    /// Ask the data file `file` for a new record of `len` bytes.
    NewVData { file: i16, len: i32 },
    /// Write the `len` bytes of the record at `addr` in the data file `file`.
    WriteVData { file: i16, addr: DatAddr, len: i32 },
    /// Add the key to the index file `file`, for the record at `addr`.
    AddKey { file: i16, addr: DatAddr },
    /// The record is stored.
    Done,
    /// The engine reported a failure, and nothing more is asked of it.
    Failed(Error),
}

/// The next thing to do after `event`, to store a record of `len` bytes in
/// the data file `dat` and its key in the index file `idx`: first a new
/// record is asked for, then the record is written at the address given,
/// then the key is added for that address. The first failure ends the work.
pub open spec fn next_action(idx: i16, dat: i16, len: i32, event: Event) -> Action {
    match event {
        Event::Start => Action::NewVData { file: dat, len },
        Event::Allocated(result) => if result == 0 {
            Action::Failed(Error(0))
        } else {
            Action::WriteVData { file: dat, addr: DatAddr(result), len }
        },
        Event::Written(addr, status) => if status == 0 {
            Action::AddKey { file: idx, addr }
        } else {
            Action::Failed(Error(status))
        },
        Event::Indexed(status) => if status == 0 {
            Action::Done
        } else {
            Action::Failed(Error(status))
        },
    }
}

/// Stores a record and its key, one request at a time: says what to ask of
/// the engine next, given what has just happened.
///
/// The length of the record must be one that the engine can be told.
pub fn insert(idx: &IdxFile, dat: &DatFile, data_len: usize, event: Event) -> (action: Action)
    requires
        data_len <= i32::MAX,
    ensures
        action == next_action(idx.0, dat.0, data_len as i32, event),
{
    let len: i32 = data_len as i32;
    match event {
        Event::Start => Action::NewVData { file: dat.0, len },
        Event::Allocated(result) => match DatAddr::allocated(result) {
            Ok(addr) => Action::WriteVData { file: dat.0, addr, len },
            Err(e) => Action::Failed(e),
        },
        Event::Written(addr, status) => match error(status) {
            Ok(_) => Action::AddKey { file: idx.0, addr },
            Err(e) => Action::Failed(e),
        },
        Event::Indexed(status) => match error(status) {
            Ok(_) => Action::Done,
            Err(e) => Action::Failed(e),
        },
    }
}

/// Where the engine answers every request with success, a record is stored
/// in three requests: a new record, the write at the address that the
/// engine gave, and the key for that same address.
pub proof fn lemma_insert_succeeds(idx: i16, dat: i16, len: i32, addr: i32)
    requires
        addr != 0,
    ensures
        next_action(idx, dat, len, Event::Start) == (Action::NewVData { file: dat, len }),
        next_action(idx, dat, len, Event::Allocated(addr)) == (Action::WriteVData {
            file: dat,
            addr: DatAddr(addr),
            len,
        }),
        next_action(idx, dat, len, Event::Written(DatAddr(addr), 0)) == (Action::AddKey {
            file: idx,
            addr: DatAddr(addr),
        }),
        next_action(idx, dat, len, Event::Indexed(0)) == Action::Done,
{
}

/// A status other than zero ends the work with the error of that status,
/// whichever request it answers.
pub proof fn lemma_insert_fails(idx: i16, dat: i16, len: i32, addr: DatAddr, status: i16)
    requires
        status != 0,
    ensures
        next_action(idx, dat, len, Event::Written(addr, status)) == Action::Failed(Error(status)),
        next_action(idx, dat, len, Event::Indexed(status)) == Action::Failed(Error(status)),
        next_action(idx, dat, len, Event::Allocated(0)) == Action::Failed(Error(0)),
{
}

} // verus!
