use propdump::ctree::{available, error, insert, Action, DatAddr, DatFile, Error, Event, IdxFile};

#[test]
fn status_zero_is_success() {
    assert_eq!(error(0), Ok(()));
    assert_eq!(error(12), Err(Error(12)));
    assert_eq!(error(-1), Err(Error(-1)));
    assert_eq!(Error(12).code(), 12);
}

#[test]
fn a_file_number_of_minus_one_is_none() {
    assert_eq!(available(-1), Err(Error(-1)));
    assert_eq!(available(0), Ok(0));
    assert_eq!(available(7), Ok(7));
}

#[test]
fn files_open_on_status_zero() {
    assert_eq!(DatFile::open(3, 0), Ok(DatFile(3)));
    assert_eq!(DatFile::open(3, 12), Err(Error(12)));
    assert_eq!(IdxFile::open(4, 0), Ok(IdxFile(4)));
    assert_eq!(IdxFile::open(4, -8), Err(Error(-8)));
}

#[test]
fn an_address_of_zero_is_none() {
    assert_eq!(DatAddr::allocated(0), Err(Error(0)));
    assert_eq!(DatAddr::allocated(4096), Ok(DatAddr(4096)));
    assert_eq!(DatAddr::allocated(-1), Ok(DatAddr(-1)));
}

#[test]
fn a_record_is_stored_in_three_requests() {
    let idx = IdxFile(1);
    let dat = DatFile(2);
    assert_eq!(insert(&idx, &dat, 10, Event::Start), Action::NewVData { file: 2, len: 10 });
    assert_eq!(
        insert(&idx, &dat, 10, Event::Allocated(512)),
        Action::WriteVData { file: 2, addr: DatAddr(512), len: 10 }
    );
    assert_eq!(
        insert(&idx, &dat, 10, Event::Written(DatAddr(512), 0)),
        Action::AddKey { file: 1, addr: DatAddr(512) }
    );
    assert_eq!(insert(&idx, &dat, 10, Event::Indexed(0)), Action::Done);
}

#[test]
fn the_first_failure_ends_the_storing() {
    let idx = IdxFile(1);
    let dat = DatFile(2);
    assert_eq!(insert(&idx, &dat, 10, Event::Allocated(0)), Action::Failed(Error(0)));
    assert_eq!(
        insert(&idx, &dat, 10, Event::Written(DatAddr(512), 33)),
        Action::Failed(Error(33))
    );
    assert_eq!(insert(&idx, &dat, 10, Event::Indexed(2)), Action::Failed(Error(2)));
}

#[test]
fn the_longest_record_that_the_engine_can_be_told() {
    let idx = IdxFile(1);
    let dat = DatFile(2);
    assert_eq!(
        insert(&idx, &dat, i32::MAX as usize, Event::Start),
        Action::NewVData { file: 2, len: i32::MAX }
    );
    assert_eq!(insert(&idx, &dat, 0, Event::Start), Action::NewVData { file: 2, len: 0 });
}

#[test]
fn an_error_tells_its_status_in_words() {
    assert_eq!(Error(12).message(), "C-Tree error: 12");
    assert_eq!(Error(0).message(), "C-Tree error: 0");
    assert_eq!(Error(-1).message(), "C-Tree error: -1");
    assert_eq!(Error(32767).message(), "C-Tree error: 32767");
    assert_eq!(Error(-32768).message(), "C-Tree error: -32768");
    assert_eq!(Error(100).message(), "C-Tree error: 100");
}
