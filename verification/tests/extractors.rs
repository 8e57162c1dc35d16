use facebook_recuperator::dom::Dom;
use facebook_recuperator::public::models::{Details, People};
use facebook_recuperator::public::FacebookPublicRecuperator;
use facebook_recuperator::transport::Requester;

/// A transport that is never asked.
struct Silent;

impl Requester for Silent {
    type Error = ();

    fn request(&self, _query: &str) -> Result<String, ()> {
        Err(())
    }
}

fn recuperator() -> FacebookPublicRecuperator<Silent> {
    FacebookPublicRecuperator::new(Silent)
}

fn block(inner: &str) -> String {
    format!("<html><body><div class=\"_4p2o\">{}</div></body></html>", inner)
}

fn hidden(payload: &str) -> String {
    format!("<html><body><div class=\"hidden_elem\"><!--{}--></div></body></html>", payload)
}

#[test]
fn a_block_without_matches_gives_empty_fields() {
    let dom = Dom::load(&block("<p class=\"other\">text <a href=\"/x\">link</a></p><img src=\"/p\">"));
    let blocks = dom.find_class("_4p2o");
    assert_eq!(blocks.len(), 1);
    let recuperator = recuperator();
    assert_eq!(recuperator.extract_name(&blocks[0]), "");
    assert_eq!(recuperator.extract_profile_url(&blocks[0]), "");
    assert_eq!(recuperator.extract_profile_picture(&blocks[0]), "");
    assert_eq!(recuperator.extract_current_activity(&blocks[0]), None);
    assert_eq!(recuperator.extract_additional_information(&blocks[0]), Vec::<Details>::new());
    assert_eq!(recuperator.map_to_people(blocks[0]), People::new("", "", "", None, vec![]));
}

#[test]
fn an_empty_block_gives_empty_fields() {
    let dom = Dom::load(&block(""));
    let blocks = dom.find_class("_4p2o");
    assert_eq!(recuperator().map_to_people(blocks[0]), People::new("", "", "", None, vec![]));
}

#[test]
fn name_is_the_trimmed_text_of_the_name_element() {
    let dom = Dom::load(&block("<div class=\"_32mo\">\n   Mock <b>User</b> 1 \n</div>"));
    let blocks = dom.find_class("_4p2o");
    assert_eq!(recuperator().extract_name(&blocks[0]), "Mock User 1");
}

#[test]
fn names_of_several_elements_are_trimmed_and_joined() {
    let dom = Dom::load(&block("<div class=\"_32mo\"> Mock </div><p>skipped</p><span class=\"x _32mo\">\tUser\n</span>"));
    let blocks = dom.find_class("_4p2o");
    assert_eq!(recuperator().extract_name(&blocks[0]), "MockUser");
}

#[test]
fn profile_url_is_the_target_of_the_first_link_of_the_wrapper() {
    let dom = Dom::load(&block("<div class=\"_gll\"><div><a href=\"https://example.com/first\">a</a><a href=\"https://example.com/second\">b</a></div></div>"));
    let blocks = dom.find_class("_4p2o");
    assert_eq!(recuperator().extract_profile_url(&blocks[0]), "https://example.com/first");
}

#[test]
fn profile_url_skips_wrappers_without_a_link_or_a_target() {
    let dom = Dom::load(&block(concat_three(
        "<div class=\"_gll\"><span>no link</span></div>",
        "<div class=\"_gll\"><a>no target</a><a href=\"/late\">late</a></div>",
        "<div class=\"_gll\"><a href=\"/kept\">kept</a></div>",
    ).as_str()));
    let blocks = dom.find_class("_4p2o");
    assert_eq!(recuperator().extract_profile_url(&blocks[0]), "/kept");
}

fn concat_three(a: &str, b: &str, c: &str) -> String {
    format!("{}{}{}", a, b, c)
}

#[test]
fn profile_urls_of_several_wrappers_are_joined() {
    let dom = Dom::load(&block("<div class=\"_gll\"><a href=\"/one\">1</a></div><div class=\"_gll\"><a href=\"/two\">2</a></div>"));
    let blocks = dom.find_class("_4p2o");
    assert_eq!(recuperator().extract_profile_url(&blocks[0]), "/one/two");
}

#[test]
fn profile_picture_is_the_source_of_the_picture() {
    let dom = Dom::load(&block("<img alt=\"Mock User 1\" class=\"_1glk img\" src=\"https://example.com/mock-user-1-profile-picture\"><img src=\"/other\">"));
    let blocks = dom.find_class("_4p2o");
    assert_eq!(recuperator().extract_profile_picture(&blocks[0]), "https://example.com/mock-user-1-profile-picture");
}

#[test]
fn profile_picture_skips_pictures_without_a_source_and_joins_the_rest() {
    let dom = Dom::load(&block("<img class=\"_1glk\"><img class=\"_1glk\" src=\"/a\"><div class=\"_1glk\">text</div><img class=\"_1glk\" src=\"/b\">"));
    let blocks = dom.find_class("_4p2o");
    assert_eq!(recuperator().extract_profile_picture(&blocks[0]), "/a/b");
}

#[test]
fn current_activity_is_the_label_and_the_link_of_the_activity_element() {
    let dom = Dom::load(&block("<div class=\"_glm\"><div class=\"_pac\">\n<a href=\"https://example.com/mock-user-1-current-activity\">Mock User 1 Current Activity</a>\n</div></div>"));
    let blocks = dom.find_class("_4p2o");
    assert_eq!(
        recuperator().extract_current_activity(&blocks[0]),
        Some(Details::new("Mock User 1 Current Activity", "https://example.com/mock-user-1-current-activity"))
    );
}

#[test]
fn current_activity_takes_the_whole_text_and_the_last_link() {
    let dom = Dom::load(&block("<div class=\"_pac\"> Works at <a href=\"/first\">One</a> and <a href=\"/last\">Two</a> </div>"));
    let blocks = dom.find_class("_4p2o");
    assert_eq!(recuperator().extract_current_activity(&blocks[0]), Some(Details::new("Works at One and Two", "/last")));
}

#[test]
fn current_activity_without_a_link_has_an_empty_url() {
    let dom = Dom::load(&block("<div class=\"_pac\">Retired</div>"));
    let blocks = dom.find_class("_4p2o");
    assert_eq!(recuperator().extract_current_activity(&blocks[0]), Some(Details::new("Retired", "")));
}

#[test]
fn current_activity_whose_last_link_has_no_target_has_an_empty_url() {
    let dom = Dom::load(&block("<div class=\"_pac\">At <a href=\"/first\">one</a> <a>two</a></div>"));
    let blocks = dom.find_class("_4p2o");
    assert_eq!(recuperator().extract_current_activity(&blocks[0]), Some(Details::new("At one two", "")));
}

#[test]
fn current_activity_with_an_empty_label_is_none() {
    let dom = Dom::load(&block("<div class=\"_pac\">\n   \t </div>"));
    let blocks = dom.find_class("_4p2o");
    assert_eq!(recuperator().extract_current_activity(&blocks[0]), None);
    let linked = Dom::load(&block("<div class=\"_pac\"> <a href=\"/x\"> </a> </div>"));
    let blocks = linked.find_class("_4p2o");
    assert_eq!(recuperator().extract_current_activity(&blocks[0]), None);
}

#[test]
fn current_activity_is_the_first_that_has_a_label() {
    let dom = Dom::load(&block("<div class=\"_pac\"> </div><div class=\"_pac\"><a href=\"/a\">First</a></div><div class=\"_pac\"><a href=\"/b\">Second</a></div>"));
    let blocks = dom.find_class("_4p2o");
    assert_eq!(recuperator().extract_current_activity(&blocks[0]), Some(Details::new("First", "/a")));
}

#[test]
fn additional_information_lists_every_item_in_order() {
    let dom = Dom::load(&block(concat_three(
        "<div class=\"_ajw\"><div class=\"_52eh\">\n From <a href=\"https://example.com/native-city\">Native City</a>\n</div></div>",
        "<div class=\"_ajw\"><div class=\"_52eh\">\n Worked at <a href=\"https://example.com/my-workplace\">My Workplace</a>\n</div></div>",
        "<div class=\"_ajw\"><div class=\"_52eh\">\n Studied at <a href=\"https://example.com/some-university\">Some University</a>\n</div></div>",
    ).as_str()));
    let blocks = dom.find_class("_4p2o");
    assert_eq!(
        recuperator().extract_additional_information(&blocks[0]),
        vec![
            Details::new("From Native City", "https://example.com/native-city"),
            Details::new("Worked at My Workplace", "https://example.com/my-workplace"),
            Details::new("Studied at Some University", "https://example.com/some-university"),
        ]
    );
}

#[test]
fn additional_information_drops_items_with_an_empty_label() {
    let dom = Dom::load(&block("<div class=\"_52eh\"> </div><div class=\"_52eh\">Kept</div><div class=\"_52eh\"><a href=\"/x\"></a></div><div class=\"_52eh\">Also <a href=\"/y\">kept</a></div>"));
    let blocks = dom.find_class("_4p2o");
    assert_eq!(
        recuperator().extract_additional_information(&blocks[0]),
        vec![Details::new("Kept", ""), Details::new("Also kept", "/y")]
    );
}

#[test]
fn labels_are_trimmed() {
    let dom = Dom::load(&block("<div class=\"_52eh\">  Native City  </div><div class=\"_pac\">\u{A0}\tNative City\n\u{3000}</div>"));
    let blocks = dom.find_class("_4p2o");
    assert_eq!(recuperator().extract_additional_information(&blocks[0]), vec![Details::new("Native City", "")]);
    assert_eq!(recuperator().extract_current_activity(&blocks[0]), Some(Details::new("Native City", "")));
}

#[test]
fn fields_are_read_below_their_own_block_only() {
    let dom = Dom::load("<div class=\"_4p2o\"><div class=\"_32mo\">One</div></div><div class=\"_32mo\">Stray</div><div class=\"_4p2o\"><div class=\"_32mo\">Two</div></div>");
    let blocks = dom.find_class("_4p2o");
    assert_eq!(blocks.len(), 2);
    assert_eq!(recuperator().extract_name(&blocks[0]), "One");
    assert_eq!(recuperator().extract_name(&blocks[1]), "Two");
}

#[test]
fn a_comment_becomes_the_body_of_a_document_of_its_own() {
    let dom = Dom::load(&hidden("<p class=\"line\">inside</p>"));
    let containers = dom.find_class("hidden_elem");
    let comments = containers[0].comments();
    assert_eq!(comments.len(), 1);
    let document = recuperator().comment_to_document(comments[0]);
    let lines = document.find_class("line");
    assert_eq!(lines.len(), 1);
    assert_eq!(lines[0].html(), "<p class=\"line\">inside</p>");
    assert_eq!(dom.find_class("line").len(), 0);
}

#[test]
fn a_hidden_document_is_the_payload_in_a_shell_of_html_and_body() {
    let dom = Dom::load(&hidden("<div class='_4p2o'></div>"));
    let comments = dom.find_class("hidden_elem")[0].comments();
    let document = recuperator().comment_to_document(comments[0]);
    let expected = Dom::load("<html><body><div class='_4p2o'></div></body></html>");
    let blocks = document.find_class("_4p2o");
    assert_eq!(blocks.len(), 1);
    assert_eq!(blocks[0].html(), expected.find_class("_4p2o")[0].html());
    assert_eq!(document.find_class("hidden_elem").len(), 0);
    assert_eq!(dom.find_class("_4p2o").len(), 0);
    assert_eq!(dom.find_class("hidden_elem")[0].comments().len(), 1);
}

#[test]
fn comment_markers_inside_a_payload_are_removed_too() {
    let dom = Dom::load(&hidden("<p class=\"line\">a<!--b</p>"));
    let containers = dom.find_class("hidden_elem");
    let comments = containers[0].comments();
    assert_eq!(comments[0].html(), "<!--<p class=\"line\">a<!--b</p>-->");
    let document = recuperator().comment_to_document(comments[0]);
    let lines = document.find_class("line");
    assert_eq!(lines.len(), 1);
    assert_eq!(lines[0].text(), "ab");
}

#[test]
fn hidden_elements_are_one_document_for_each_comment_in_order() {
    let recuperator = recuperator();
    let none = recuperator.extract_hidden_elements(Dom::load("<div class=\"hidden_elem\"><p>shown</p></div>"));
    assert_eq!(none.len(), 0);
    let one = recuperator.extract_hidden_elements(Dom::load(&hidden("<p class=\"line\">only</p>")));
    assert_eq!(one.len(), 1);
    assert_eq!(one[0].find_class("line")[0].text(), "only");
    let three = recuperator.extract_hidden_elements(Dom::load(
        "<div class=\"hidden_elem\"><!--<p class=\"line\">1</p>--><b>between</b><!--<p class=\"line\">2</p>--><!--<p class=\"line\">3</p>--></div>",
    ));
    assert_eq!(three.len(), 3);
    assert_eq!(three[0].find_class("line")[0].text(), "1");
    assert_eq!(three[1].find_class("line")[0].text(), "2");
    assert_eq!(three[2].find_class("line")[0].text(), "3");
}

#[test]
fn hidden_elements_follow_the_order_of_their_containers() {
    let documents = recuperator().extract_hidden_elements(Dom::load(
        "<div class=\"hidden_elem\"><!--<p class=\"line\">a</p>--></div><!--<p class=\"line\">outside</p>--><div class=\"x hidden_elem\"><!--<p class=\"line\">b</p>--><!--<p class=\"line\">c</p>--></div>",
    ));
    assert_eq!(documents.len(), 3);
    assert_eq!(documents[0].find_class("line")[0].text(), "a");
    assert_eq!(documents[1].find_class("line")[0].text(), "b");
    assert_eq!(documents[2].find_class("line")[0].text(), "c");
}

#[test]
fn hidden_elements_are_the_comments_directly_in_a_container() {
    let documents = recuperator().extract_hidden_elements(Dom::load(
        "<div class=\"hidden_elem\"><span><!--<p class=\"line\">deeper</p>--></span><!--<p class=\"line\">direct</p>--></div>",
    ));
    assert_eq!(documents.len(), 1);
    assert_eq!(documents[0].find_class("line")[0].text(), "direct");
}

#[test]
fn a_page_without_hidden_results_lists_nobody() {
    let recuperator = recuperator();
    assert_eq!(recuperator.extract_results(Dom::load("")), Vec::<People>::new());
    assert_eq!(recuperator.extract_results(Dom::load(&block("<div class=\"_32mo\">Shown</div>"))), Vec::<People>::new());
    assert_eq!(recuperator.extract_results(Dom::load(&hidden("<p>no block</p>"))), Vec::<People>::new());
}

#[test]
fn a_block_without_fields_still_gives_a_record() {
    let results = recuperator().extract_results(Dom::load(&hidden("<div class=\"_4p2o\"></div><div class=\"_4p2o\"><div class=\"_32mo\">Named</div></div>")));
    assert_eq!(results, vec![People::new("", "", "", None, vec![]), People::new("Named", "", "", None, vec![])]);
}

#[test]
fn results_follow_the_order_of_the_page() {
    let results = recuperator().extract_results(Dom::load(
        "<div class=\"hidden_elem\"><!--<div class=\"_4p2o\"><div class=\"_32mo\">1</div></div><div class=\"_4p2o\"><div class=\"_32mo\">2</div></div>--><!--<div class=\"_4p2o\"><div class=\"_32mo\">3</div></div>--></div><div class=\"hidden_elem\"><!--<div class=\"_4p2o\"><div class=\"_32mo\">4</div></div>--></div>",
    ));
    let names: Vec<String> = results.into_iter().map(|people| people.name).collect();
    assert_eq!(names, vec!["1", "2", "3", "4"]);
}

#[test]
fn the_same_page_gives_the_same_results() {
    let page = hidden("<div class=\"_4p2o\"><img class=\"_1glk\" src=\"/p\"><div class=\"_gll\"><a href=\"/u\"><div class=\"_32mo\"> N </div></a></div><div class=\"_pac\">Does <a href=\"/w\">work</a></div><div class=\"_52eh\">From <a href=\"/c\">City</a></div></div>");
    let recuperator = recuperator();
    let first = recuperator.extract_results(Dom::load(&page));
    let second = recuperator.extract_results(Dom::load(&page));
    assert_eq!(first, second);
    assert_eq!(
        first,
        vec![People::new("N", "/u", "/p", Some(Details::new("Does work", "/w")), vec![Details::new("From City", "/c")])]
    );
}
