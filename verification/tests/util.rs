use pihole_api::util::{status, Error};

#[test]
fn status_words() {
    assert_eq!(status(&Ok(())), "success");
    assert_eq!(status(&Err(Error::InvalidDomain)), "invalid_domain");
    assert_eq!(status(&Err(Error::AlreadyExists)), "already_exists");
    assert_eq!(status(&Err(Error::NotFound)), "not_found");
    assert_eq!(status(&Err(Error::StoreFailure)), "store_failure");
    assert_eq!(status(&Err(Error::NotifyFailure)), "notify_failure");
}

#[test]
fn error_names() {
    assert_eq!(Error::InvalidDomain.as_str(), "invalid_domain");
    assert_eq!(Error::AlreadyExists.as_str(), "already_exists");
    assert_eq!(Error::NotFound.as_str(), "not_found");
    assert_eq!(Error::StoreFailure.as_str(), "store_failure");
    assert_eq!(Error::NotifyFailure.as_str(), "notify_failure");
}
