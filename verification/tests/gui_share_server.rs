use piki::gui::live_share::HighlightTarget;
use piki::gui::share_server::{route_request, url_for, Route, ShareState};

#[test]
fn root_redirects_to_the_current_note() {
    assert_eq!(route_request("/", "front page"), Route::Redirect("/front%20page".to_string()));
    assert_eq!(route_request("/?x=1", "a/b"), Route::Redirect("/a/b".to_string()));
}

#[test]
fn icon_and_version_endpoints() {
    assert_eq!(route_request("/favicon.ico", "x"), Route::NoContent);
    assert_eq!(
        route_request("/__piki/version?note=a%2Fb", "x"),
        Route::Version("a/b".to_string())
    );
    assert_eq!(route_request("/__piki/version", "x"), Route::Version(String::new()));
}

#[test]
fn note_paths_are_decoded_and_checked() {
    assert_eq!(
        route_request("/recipes?raw=1", "recipes"),
        Route::Note { note: "recipes".to_string(), current: true, raw: true }
    );
    assert_eq!(
        route_request("/project%20a/standup", "recipes"),
        Route::Note { note: "project a/standup".to_string(), current: false, raw: false }
    );
    assert_eq!(route_request("/../secret", "recipes"), Route::NotFound("../secret".to_string()));
    assert_eq!(route_request("/a//b", "recipes"), Route::NotFound("a//b".to_string()));
    // The current note is served from memory even when its name could not be
    // read from disk (a generated page).
    assert_eq!(
        route_request("/!index", "!index"),
        Route::Note { note: "!index".to_string(), current: true, raw: false }
    );
}

#[test]
fn share_url_encodes_the_note() {
    assert_eq!(url_for(8080, "front page"), "http://localhost:8080/front%20page");
    assert_eq!(url_for(0, "a/b"), "http://localhost:0/a/b");
}

#[test]
fn state_bumps_generation_only_on_change() {
    let mut st = ShareState::new("/notes".to_string(), "a".to_string(), "# A".to_string());
    assert_eq!(st.generation, 1);
    st.set_current("a", "# A");
    assert_eq!(st.generation, 1);
    st.set_highlight(vec![HighlightTarget { block: 0, li: None }]);
    assert_eq!(st.generation, 2);
    st.set_highlight(vec![HighlightTarget { block: 0, li: None }]);
    assert_eq!(st.generation, 2);
    st.set_current("a", "# A changed");
    assert_eq!(st.generation, 3);
    assert_eq!(st.highlight.len(), 1);
    st.set_current("b", "# B");
    assert_eq!(st.generation, 4);
    assert!(st.highlight.is_empty());
    assert_eq!(st.current_note, "b");
}

#[test]
fn generation_wraps_around() {
    let mut st = ShareState::new(String::new(), "a".to_string(), String::new());
    st.generation = u64::MAX;
    st.set_current("b", "");
    assert_eq!(st.generation, 0);
}

#[test]
fn rewritten_links_lead_back_to_their_note() {
    let link = piki::gui::live_share::rewrite_link_target("Notes: Meeting#agenda").unwrap();
    let path = link.split('#').next().unwrap();
    assert_eq!(
        route_request(path, "other"),
        Route::Note { note: "Notes: Meeting".to_string(), current: false, raw: false }
    );
    let link = piki::gui::live_share::rewrite_link_target("piki://work/über").unwrap();
    assert_eq!(
        route_request(&link, "work/über"),
        Route::Note { note: "work/über".to_string(), current: true, raw: false }
    );
}

#[test]
fn decoding_an_encoded_path_gives_it_back() {
    let text = "Notes: Meeting/ü 100%";
    let encoded: String = piki::gui::percent::encode_path(text).iter().collect();
    assert_eq!(piki::gui::percent::percent_decode(&encoded), text);
    let fragment: String = piki::gui::percent::encode_fragment("a/b#c").iter().collect();
    assert_eq!(fragment, "a%2Fb%23c");
    assert_eq!(piki::gui::percent::percent_decode(&fragment), "a/b#c");
}
