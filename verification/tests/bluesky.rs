use chicago_data_bot::bluesky::{publish_step, PublishStep, created_uri, endpoint, link_facet, lookup_decision, pds_base, LookupReply};
use chicago_data_bot::error::BotError;

fn reply(success: bool, status: u16) -> LookupReply {
    LookupReply { success, status, text: None, created_at: None, uri: None, error: None }
}

#[test]
fn pds_must_be_an_https_origin() {
    assert_eq!(pds_base("https://bsky.social/").unwrap(), "https://bsky.social");
    assert_eq!(pds_base("https://pds.example:8443").unwrap(), "https://pds.example:8443");
    assert_eq!(pds_base("http://bsky.social"), Err(BotError::PdsNotHttpsOrigin));
    assert_eq!(pds_base("https://u:p@bsky.social"), Err(BotError::PdsNotHttpsOrigin));
    assert_eq!(pds_base("https://bsky.social/?x=1"), Err(BotError::PdsNotHttpsOrigin));
    assert_eq!(pds_base("https://bsky.social/#f"), Err(BotError::PdsNotHttpsOrigin));
    assert_eq!(pds_base("bsky.social"), Err(BotError::InvalidUrl));
}

#[test]
fn endpoints_are_xrpc_paths() {
    assert_eq!(
        endpoint("https://bsky.social", "com.atproto.repo.getRecord"),
        "https://bsky.social/xrpc/com.atproto.repo.getRecord"
    );
}

#[test]
fn recovered_record_is_accepted_only_if_it_is_this_post() {
    let mut r = reply(true, 200);
    r.text = Some("text".into());
    r.created_at = Some("time".into());
    r.uri = Some("at://existing".into());
    assert_eq!(lookup_decision(&r, "text", "time"), Ok(Some("at://existing".to_string())));
    assert_eq!(lookup_decision(&r, "other", "time"), Err(BotError::ExistingRecordMismatch));
    assert_eq!(lookup_decision(&r, "text", "later"), Err(BotError::ExistingRecordMismatch));
    r.uri = None;
    assert_eq!(lookup_decision(&r, "text", "time"), Err(BotError::MissingUri));
}

#[test]
fn missing_record_allows_creation_and_other_errors_do_not() {
    let mut r = reply(false, 400);
    r.error = Some("RecordNotFound".into());
    assert_eq!(lookup_decision(&r, "t", "c"), Ok(None));
    let mut r = reply(false, 503);
    r.error = Some("Unavailable".into());
    assert_eq!(lookup_decision(&r, "t", "c"), Err(BotError::LookupFailed));
    let mut r = reply(false, 400);
    r.error = Some("InvalidRequest".into());
    assert_eq!(lookup_decision(&r, "t", "c"), Err(BotError::LookupFailed));
}

#[test]
fn created_post_needs_a_uri() {
    assert_eq!(created_uri(true, Some("at://created".into())), Ok("at://created".to_string()));
    assert_eq!(created_uri(true, None), Err(BotError::MissingUri));
    assert_eq!(created_uri(false, Some("at://created".into())), Err(BotError::PublicationFailed));
}

#[test]
fn link_facet_is_the_last_occurrence_in_bytes() {
    let url = "https://data.cityofchicago.org/d/j4h8-ug9m";
    let text = format!("🏙️ {url}\n\n{url}");
    let (start, end) = link_facet(&text, url).unwrap();
    assert_eq!(start, text.rfind(url).unwrap());
    assert_eq!(end, start + url.len());
    assert_eq!(end, text.len());
    assert_eq!(link_facet("no link here", url), Err(BotError::MissingLink));
    assert_eq!(link_facet("", "x"), Err(BotError::MissingLink));
}

#[test]
fn a_run_logs_in_only_with_pending_posts_and_stops_at_the_limit() {
    assert_eq!(publish_step(false, true, false, 0, 5), PublishStep::Stop);
    assert_eq!(publish_step(true, false, false, 0, 5), PublishStep::Stop);
    assert_eq!(publish_step(true, true, false, 0, 5), PublishStep::Login);
    assert_eq!(publish_step(true, true, true, 4, 5), PublishStep::Publish);
    assert_eq!(publish_step(true, true, true, 5, 5), PublishStep::Stop);
    let mut posted = 0;
    let mut logged_in = false;
    let mut logins = 0;
    loop {
        match publish_step(true, true, logged_in, posted, 5) {
            PublishStep::Stop => break,
            PublishStep::Login => {
                logged_in = true;
                logins += 1;
            }
            PublishStep::Publish => posted += 1,
        }
    }
    assert_eq!((posted, logins), (5, 1));
}
