use pihole_api::dns::list::List;
use pihole_api::ftl::{Answer, Command, EOM};
use pihole_api::util::Error;

#[test]
fn command_names() {
    assert_eq!(Command::ReloadLists.name(), "reload-lists");
    assert_eq!(Command::RecompileRegex.name(), "recompile-regex");
}

#[test]
fn each_list_has_its_command() {
    assert_eq!(List::White.command(), Command::ReloadLists);
    assert_eq!(List::Black.command(), Command::ReloadLists);
    assert_eq!(List::Regex.command(), Command::RecompileRegex);
}

#[test]
fn the_end_of_message_byte() {
    assert_eq!(EOM, 0xc1);
}

#[test]
fn an_end_of_message_acknowledges() {
    assert_eq!(Answer::Data(vec![EOM]).expect_eom(), Ok(()));
    assert_eq!(Answer::Data(vec![0xc1]).expect_eom(), Ok(()));
    // Only the first byte is looked at
    assert_eq!(Answer::Data(vec![EOM, 0x01, 0x02]).expect_eom(), Ok(()));
}

#[test]
fn anything_else_does_not_acknowledge() {
    assert_eq!(Answer::Failed.expect_eom(), Err(Error::NotifyFailure));
    assert_eq!(Answer::Data(vec![]).expect_eom(), Err(Error::NotifyFailure));
    assert_eq!(Answer::Data(vec![0x00]).expect_eom(), Err(Error::NotifyFailure));
    assert_eq!(Answer::Data(vec![0xc0]).expect_eom(), Err(Error::NotifyFailure));
    assert_eq!(Answer::Data(vec![0x01, EOM]).expect_eom(), Err(Error::NotifyFailure));
}
