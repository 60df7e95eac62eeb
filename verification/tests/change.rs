use pihole_api::dns::change::{start, Change, Reading};
use pihole_api::dns::list::List;
use pihole_api::ftl::{Answer, Command, EOM};
use pihole_api::store::{FileState, PiholeFile};
use pihole_api::util::Error;

/// A disk with one file on it and a resolver, with a record of what was done
/// to either.
struct World {
    text: Option<Vec<u8>>,
    appends: usize,
    replacements: usize,
    sent: Vec<&'static str>,
    answer: Vec<u8>,
}

impl World {
    fn new(text: Option<&[u8]>) -> World {
        World {
            text: text.map(|t| t.to_vec()),
            appends: 0,
            replacements: 0,
            sent: Vec::new(),
            answer: vec![EOM],
        }
    }

    /// Carries a change through its stages.
    fn carry_out(&mut self, change: Result<Reading, Error>) -> Result<(), Error> {
        let reading = change?;
        let file = match &self.text {
            Some(text) => FileState::Present(text.clone()),
            None => FileState::Missing,
        };
        let writing = reading.read(file)?;
        if writing.append() {
            self.appends += 1;
            self.text.get_or_insert_with(Vec::new).extend_from_slice(writing.bytes());
        } else {
            self.replacements += 1;
            self.text = Some(writing.bytes().to_vec());
        }
        let notifying = writing.written(true)?;
        self.sent.push(notifying.command().name());
        notifying.answered(&Answer::Data(self.answer.clone()))
    }
}

#[test]
fn regex_add_and_remove_each_send_one_recompile() {
    let mut world = World::new(None);
    let add = start(List::Regex, Change::Add, "^.*example.com$".to_owned());
    assert_eq!(world.carry_out(add), Ok(()));
    assert_eq!(world.text, Some(b"^.*example.com$\n".to_vec()));
    assert_eq!(world.sent, vec!["recompile-regex"]);

    let remove = start(List::Regex, Change::Remove, "^.*example.com$".to_owned());
    assert_eq!(world.carry_out(remove), Ok(()));
    assert_eq!(world.text, Some(b"".to_vec()));
    assert_eq!(world.sent, vec!["recompile-regex", "recompile-regex"]);
}

#[test]
fn domain_add_and_remove_each_send_one_reload() {
    for list in [List::White, List::Black] {
        let mut world = World::new(Some(b"a.com\n"));
        assert_eq!(world.carry_out(start(list, Change::Add, "example.com".to_owned())), Ok(()));
        assert_eq!(world.text, Some(b"a.com\nexample.com\n".to_vec()));
        assert_eq!(world.sent, vec!["reload-lists"]);
        assert_eq!(world.carry_out(start(list, Change::Remove, "a.com".to_owned())), Ok(()));
        assert_eq!(world.text, Some(b"example.com\n".to_vec()));
        assert_eq!(world.sent, vec!["reload-lists", "reload-lists"]);
    }
}

#[test]
fn an_addition_appends_and_a_removal_replaces() {
    let mut world = World::new(Some(b"a.com\r\n\nb.com\n"));
    assert_eq!(world.carry_out(start(List::Black, Change::Add, "c.com".to_owned())), Ok(()));
    assert_eq!((world.appends, world.replacements), (1, 0));
    assert_eq!(world.text, Some(b"a.com\r\n\nb.com\nc.com\n".to_vec()));
    assert_eq!(world.carry_out(start(List::Black, Change::Remove, "b.com".to_owned())), Ok(()));
    assert_eq!((world.appends, world.replacements), (1, 1));
    assert_eq!(world.text, Some(b"a.com\nc.com\n".to_vec()));
}

#[test]
fn an_addition_writes_one_line() {
    let reading = start(List::White, Change::Add, "example.com".to_owned()).unwrap();
    assert_eq!(reading.file(), PiholeFile::Whitelist);
    let writing = reading.read(FileState::Present(b"a.com\n".to_vec())).unwrap();
    assert_eq!(writing.file(), PiholeFile::Whitelist);
    assert!(writing.append());
    assert_eq!(writing.bytes(), b"example.com\n");
    let notifying = writing.written(true).unwrap();
    assert_eq!(notifying.command(), Command::ReloadLists);
    assert_eq!(notifying.answered(&Answer::Data(vec![EOM])), Ok(()));
}

#[test]
fn an_addition_makes_the_file() {
    let mut world = World::new(None);
    assert_eq!(world.carry_out(start(List::Black, Change::Add, "example.com".to_owned())), Ok(()));
    assert_eq!(world.text, Some(b"example.com\n".to_vec()));
}

#[test]
fn a_change_that_changes_nothing_writes_and_sends_nothing() {
    let mut world = World::new(Some(b"example.com\n"));
    let again = start(List::Black, Change::Add, "example.com".to_owned());
    assert_eq!(world.carry_out(again), Err(Error::AlreadyExists));
    let absent = start(List::Black, Change::Remove, "a.com".to_owned());
    assert_eq!(world.carry_out(absent), Err(Error::NotFound));
    let invalid = start(List::Black, Change::Add, "not a domain!!".to_owned());
    assert_eq!(world.carry_out(invalid), Err(Error::InvalidDomain));
    assert_eq!(world.text, Some(b"example.com\n".to_vec()));
    assert_eq!((world.appends, world.replacements), (0, 0));
    assert!(world.sent.is_empty());
}

#[test]
fn a_change_of_an_unreadable_file_fails() {
    for change in [Change::Add, Change::Remove] {
        let reading = start(List::Regex, change, "^a$".to_owned()).unwrap();
        assert!(matches!(reading.read(FileState::Unreadable), Err(Error::StoreFailure)));
    }
}

#[test]
fn a_change_that_is_not_written_is_a_store_failure() {
    for change in [Change::Add, Change::Remove] {
        let reading = start(List::Black, change, "example.com".to_owned()).unwrap();
        let file = match change {
            Change::Add => FileState::Missing,
            Change::Remove => FileState::Present(b"example.com\n".to_vec()),
        };
        let writing = reading.read(file).unwrap();
        assert!(matches!(writing.written(false), Err(Error::StoreFailure)));
    }
}

#[test]
fn a_change_that_is_not_acknowledged_is_a_notify_failure() {
    let mut world = World::new(None);
    world.answer = vec![];
    let add = start(List::Regex, Change::Add, "^a$".to_owned());
    assert_eq!(world.carry_out(add), Err(Error::NotifyFailure));
    // The file has changed and the command was sent
    assert_eq!(world.text, Some(b"^a$\n".to_vec()));
    assert_eq!(world.sent, vec!["recompile-regex"]);
}
