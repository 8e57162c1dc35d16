use super::models::{people_views, views, Details, DetailsView, People, PeopleView};
use super::request::FacebookPublicRequest;
use super::response::FacebookPublicResponse;
use crate::dom::{
    attribute, classed, classed_below, comment_children, comment_markup, html_of, located,
    loaded, named_below, tables, text_of, Content, Dom, Entry, Node,
};
use crate::text::{
    free_of, remove_all, removal_keeps_text_without_marker, removal_takes_leftmost_occurrence,
    starts_with, trim, trimmed, trimmed_parts, white_space, without,
};
use crate::transport::Requester;
use vstd::prelude::*;

verus! {

/// The class of the containers that hide the results from display.
pub const HIDDEN_CONTAINER: &'static str = "hidden_elem";

/// The class of a result block: the markup of one person.
pub const RESULT_BLOCK: &'static str = "_4p2o";

/// The class of the elements that hold a person's name.
pub const NAME: &'static str = "_32mo";

/// The class of the elements that wrap the link to a person's profile.
pub const LINK_WRAPPER: &'static str = "_gll";

/// The class of a person's picture.
pub const PICTURE: &'static str = "_1glk";

/// The class of the element that holds a person's current activity.
pub const ACTIVITY: &'static str = "_pac";

/// The class of the elements that each hold one more piece of information.
pub const INFO_ITEM: &'static str = "_52eh";

/// The name of a link element.
pub const ANCHOR: &'static str = "a";

/// The attribute that holds the target of a link.
pub const TARGET: &'static str = "href";

/// The attribute that holds the address of a picture.
pub const SOURCE: &'static str = "src";

/// What opens a comment in markup.
pub const COMMENT_OPEN: &'static str = "<!--";

/// What closes a comment in markup.
pub const COMMENT_CLOSE: &'static str = "-->";

/// What is put before a hidden payload to make a document of it.
pub const SHELL_OPEN: &'static str = "<html><body>";

/// What is put after a hidden payload to make a document of it.
pub const SHELL_CLOSE: &'static str = "</body></html>";

/// An attribute's value, or the empty text where there is none.
pub open spec fn or_empty(value: Option<Seq<char>>) -> Seq<char> {
    match value {
        Some(text) => text,
        None => Seq::empty(),
    }
}

/// The payload of a comment: its markup with every comment opener and then
/// every comment closer taken out.
pub open spec fn uncommented(html: Seq<char>) -> Seq<char> {
    without(without(html, COMMENT_OPEN@), COMMENT_CLOSE@)
}

/// The document text that stands for a hidden payload.
pub open spec fn shell(payload: Seq<char>) -> Seq<char> {
    SHELL_OPEN@ + payload + SHELL_CLOSE@
}

/// The text of the document hidden in a comment with the markup `html`: the
/// markup without the comment markers, in the shell.
pub open spec fn fragment_text(html: Seq<char>) -> Seq<char> {
    shell(uncommented(html))
}

/// The document hidden in the comment `comment` of `table`.
pub open spec fn fragment_of(table: Seq<Entry>, comment: usize) -> Seq<Entry> {
    loaded(fragment_text(html_of(table, comment)))
}

/// The comments that are children of hidden containers: container by
/// container in document order, and within a container in document order.
pub open spec fn hidden_comments(table: Seq<Entry>) -> Seq<usize> {
    classed(table, HIDDEN_CONTAINER@).map_values(|h: usize| comment_children(table, h)).flatten()
}

/// The documents hidden in `table`, one for each hidden comment, in order.
pub open spec fn fragments_of(table: Seq<Entry>) -> Seq<Seq<Entry>> {
    hidden_comments(table).map_values(|c: usize| fragment_of(table, c))
}

/// The name in a result block: the trimmed texts of its name elements,
/// joined in document order.
pub open spec fn name_of(table: Seq<Entry>, block: usize) -> Seq<char> {
    classed_below(table, block, NAME@).map_values(
        |n: usize| trimmed(text_of(table, n)),
    ).flatten()
}

/// The target of the first link below `wrapper`; the empty text where there
/// is no link below it or the link has no target.
pub open spec fn first_target(table: Seq<Entry>, wrapper: usize) -> Seq<char> {
    let anchors = named_below(table, wrapper, ANCHOR@);
    if anchors.len() > 0 {
        or_empty(attribute(table, anchors.first(), TARGET@))
    } else {
        Seq::empty()
    }
}

/// The profile address in a result block: the targets of the first links of
/// its link wrappers, joined in document order. A wrapper without a link, or
/// whose link has no target, adds nothing.
pub open spec fn profile_url_of(table: Seq<Entry>, block: usize) -> Seq<char> {
    classed_below(table, block, LINK_WRAPPER@).map_values(
        |w: usize| first_target(table, w),
    ).flatten()
}

/// The picture address in a result block: the sources of its pictures,
/// joined in document order. A picture without a source adds nothing.
pub open spec fn profile_picture_of(table: Seq<Entry>, block: usize) -> Seq<char> {
    classed_below(table, block, PICTURE@).map_values(
        |p: usize| or_empty(attribute(table, p, SOURCE@)),
    ).flatten()
}

/// The target of the last link below `node`; the empty text where there is
/// no link below it or the link has no target.
pub open spec fn last_target(table: Seq<Entry>, node: usize) -> Seq<char> {
    let anchors = named_below(table, node, ANCHOR@);
    if anchors.len() > 0 {
        or_empty(attribute(table, anchors.last(), TARGET@))
    } else {
        Seq::empty()
    }
}

/// The detail that the element `node` holds: its whole text, trimmed, as the
/// label, and the target of its last link.
pub open spec fn detail_of(table: Seq<Entry>, node: usize) -> DetailsView {
    DetailsView { label: trimmed(text_of(table, node)), url: last_target(table, node) }
}

/// The details that the elements of class `class` below `block` hold, in
/// document order, without those whose label is empty.
pub open spec fn details_of(table: Seq<Entry>, block: usize, class: Seq<char>) -> Seq<
    DetailsView,
> {
    classed_below(table, block, class).map_values(|n: usize| detail_of(table, n)).filter(
        |d: DetailsView| d.label.len() > 0,
    )
}

/// The current activity in a result block: the first of the details of its
/// activity elements, if there is one.
pub open spec fn current_activity_of(table: Seq<Entry>, block: usize) -> Option<DetailsView> {
    let kept = details_of(table, block, ACTIVITY@);
    if kept.len() > 0 {
        Some(kept.first())
    } else {
        None
    }
}

/// The additional information in a result block: the details of all its
/// information items.
pub open spec fn additional_information_of(table: Seq<Entry>, block: usize) -> Seq<DetailsView> {
    details_of(table, block, INFO_ITEM@)
}

/// The person that a result block describes.
pub open spec fn person_of(table: Seq<Entry>, block: usize) -> PeopleView {
    PeopleView {
        name: name_of(table, block),
        profile_url: profile_url_of(table, block),
        profile_picture: profile_picture_of(table, block),
        current_activity: current_activity_of(table, block),
        additional_information: additional_information_of(table, block),
    }
}

/// The people of one hidden document: one for each result block, in
/// document order.
pub open spec fn people_of(fragment: Seq<Entry>) -> Seq<PeopleView> {
    classed(fragment, RESULT_BLOCK@).map_values(|b: usize| person_of(fragment, b))
}

/// The people that a page lists: those of its hidden documents, in order.
pub open spec fn results_of(table: Seq<Entry>) -> Seq<PeopleView> {
    fragments_of(table).map_values(|f: Seq<Entry>| people_of(f)).flatten()
}

/// A comment hides its own text where that text brings no marker of its
/// own: where no comment opener begins in the text followed by the closer,
/// and no closer begins in it before the text ends, taking the markers out
/// of the comment's markup leaves the text as it is.
pub proof fn uncommented_comment_is_its_text(inner: Seq<char>)
    requires
        free_of(inner + COMMENT_CLOSE@, COMMENT_OPEN@),
        forall|i: int|
            0 <= i < inner.len() ==> !starts_with(
                #[trigger] (inner + COMMENT_CLOSE@).skip(i),
                COMMENT_CLOSE@,
            ),
    ensures
        uncommented(comment_markup(inner)) == inner,
        fragment_text(comment_markup(inner)) == shell(inner),
{
    reveal_strlit("<!--");
    reveal_strlit("-->");
    let none = Seq::<char>::empty();
    let closed = inner + COMMENT_CLOSE@;
    assert(none + COMMENT_OPEN@ + closed =~= comment_markup(inner));
    removal_takes_leftmost_occurrence(none, COMMENT_OPEN@, closed);
    removal_keeps_text_without_marker(closed, COMMENT_OPEN@);
    assert(none + closed =~= closed);
    assert(inner + COMMENT_CLOSE@ + none =~= closed);
    removal_takes_leftmost_occurrence(inner, COMMENT_CLOSE@, none);
    assert(inner + without(none, COMMENT_CLOSE@) =~= inner);
}

/// `text` ends with `tail`.
pub open spec fn ends_with(text: Seq<char>, tail: Seq<char>) -> bool {
    tail.len() <= text.len() && text.skip(text.len() - tail.len()) == tail
}

/// A comment whose text holds neither marker, and does not end with the
/// first two or three characters of the opener, hides its text as it is: the
/// hidden document is parsed from the text in the shell.
pub proof fn plain_comment_hides_its_text(inner: Seq<char>)
    requires
        free_of(inner, COMMENT_OPEN@),
        free_of(inner, COMMENT_CLOSE@),
        !ends_with(inner, "<!"@),
        !ends_with(inner, "<!-"@),
    ensures
        uncommented(comment_markup(inner)) == inner,
        fragment_text(comment_markup(inner)) == shell(inner),
{
    reveal_strlit("<!--");
    reveal_strlit("-->");
    reveal_strlit("<!");
    reveal_strlit("<!-");
    let open = COMMENT_OPEN@;
    let close = COMMENT_CLOSE@;
    let closed = inner + close;
    assert forall|i: int| 0 <= i <= closed.len() implies !starts_with(
        #[trigger] closed.skip(i),
        open,
    ) by {
        if starts_with(closed.skip(i), open) {
            let found = closed.skip(i).take(4);
            assert(found[0] == '<' && found[1] == '!' && found[2] == '-' && found[3] == '-');
            if i + 4 <= inner.len() {
                assert(inner.skip(i).take(4) =~= found);
                assert(starts_with(inner.skip(i), open));
            } else if i + 3 == inner.len() {
                assert(inner.skip(inner.len() - 3) =~= "<!-"@);
            } else if i + 2 == inner.len() {
                assert(inner.skip(inner.len() - 2) =~= "<!"@);
            } else if i + 1 == inner.len() {
                assert(found[1] == close[0]);
            } else {
                assert(closed.skip(i).len() < 4);
            }
        }
    }
    assert forall|i: int| 0 <= i < inner.len() implies !starts_with(
        #[trigger] closed.skip(i),
        close,
    ) by {
        if starts_with(closed.skip(i), close) {
            let found = closed.skip(i).take(3);
            assert(found[0] == '-' && found[1] == '-' && found[2] == '>');
            if i + 3 <= inner.len() {
                assert(inner.skip(i).take(3) =~= found);
                assert(starts_with(inner.skip(i), close));
            } else if i + 2 == inner.len() {
                assert(found[2] == close[0]);
            } else {
                assert(found[2] == close[1]);
            }
        }
    }
    uncommented_comment_is_its_text(inner);
}

/// A page with one hidden container holds one hidden document for each
/// comment among the children of that container, in the order of the
/// comments.
pub proof fn one_document_per_comment(table: Seq<Entry>, container: usize)
    requires
        classed(table, HIDDEN_CONTAINER@) == seq![container],
    ensures
        fragments_of(table).len() == comment_children(table, container).len(),
        forall|i: int|
            0 <= i < fragments_of(table).len() ==> #[trigger] fragments_of(table)[i]
                == fragment_of(table, comment_children(table, container)[i]),
{
    let inside = classed(table, HIDDEN_CONTAINER@).map_values(
        |h: usize| comment_children(table, h),
    );
    assert(inside =~= seq![comment_children(table, container)]);
    inside.lemma_flatten_singleton();
}

/// A page without a hidden container, or whose hidden containers have no
/// comment among their children, holds no hidden document and lists nobody.
pub proof fn nothing_hidden_nobody_listed(table: Seq<Entry>)
    requires
        hidden_comments(table).len() == 0,
    ensures
        fragments_of(table).len() == 0,
        results_of(table).len() == 0,
{
    assert(fragments_of(table).map_values(|f: Seq<Entry>| people_of(f)) =~= Seq::<
        Seq<PeopleView>,
    >::empty());
}

/// A result block in which no element carries the class of a field yields
/// the empty value of that field: the empty text, no activity, the empty
/// list.
pub proof fn unmatched_fields_are_empty(table: Seq<Entry>, block: usize)
    ensures
        classed_below(table, block, NAME@).len() == 0 ==> name_of(table, block) == Seq::<
            char,
        >::empty(),
        classed_below(table, block, LINK_WRAPPER@).len() == 0 ==> profile_url_of(table, block)
            == Seq::<char>::empty(),
        classed_below(table, block, PICTURE@).len() == 0 ==> profile_picture_of(table, block)
            == Seq::<char>::empty(),
        classed_below(table, block, ACTIVITY@).len() == 0 ==> current_activity_of(table, block)
            is None,
        classed_below(table, block, INFO_ITEM@).len() == 0 ==> additional_information_of(
            table,
            block,
        ) == Seq::<DetailsView>::empty(),
{
    let keep = |d: DetailsView| d.label.len() > 0;
    let detail = |n: usize| detail_of(table, n);
    if classed_below(table, block, NAME@).len() == 0 {
        assert(classed_below(table, block, NAME@).map_values(
            |n: usize| trimmed(text_of(table, n)),
        ) =~= Seq::<Seq<char>>::empty());
    }
    if classed_below(table, block, LINK_WRAPPER@).len() == 0 {
        assert(classed_below(table, block, LINK_WRAPPER@).map_values(
            |w: usize| first_target(table, w),
        ) =~= Seq::<Seq<char>>::empty());
    }
    if classed_below(table, block, PICTURE@).len() == 0 {
        assert(classed_below(table, block, PICTURE@).map_values(
            |p: usize| or_empty(attribute(table, p, SOURCE@)),
        ) =~= Seq::<Seq<char>>::empty());
    }
    if classed_below(table, block, ACTIVITY@).len() == 0 {
        classed_below(table, block, ACTIVITY@).map_values(detail).lemma_filter_len(keep);
    }
    if classed_below(table, block, INFO_ITEM@).len() == 0 {
        classed_below(table, block, INFO_ITEM@).map_values(detail).lemma_filter_len(keep);
        assert(additional_information_of(table, block) =~= Seq::<DetailsView>::empty());
    }
}

/// Every detail that is kept has a label that is not empty and neither
/// begins nor ends with whitespace.
pub proof fn kept_labels_are_normalised(table: Seq<Entry>, block: usize, class: Seq<char>)
    ensures
        forall|i: int|
            0 <= i < details_of(table, block, class).len() ==> {
                let label = (#[trigger] details_of(table, block, class)[i]).label;
                label.len() > 0 && !white_space(label.first()) && !white_space(label.last())
            },
{
    let keep = |d: DetailsView| d.label.len() > 0;
    let candidates = classed_below(table, block, class).map_values(
        |n: usize| detail_of(table, n),
    );
    assert forall|i: int| 0 <= i < details_of(table, block, class).len() implies {
        let label = (#[trigger] details_of(table, block, class)[i]).label;
        label.len() > 0 && !white_space(label.first()) && !white_space(label.last())
    } by {
        let kept = details_of(table, block, class)[i];
        candidates.lemma_filter_pred(keep, i);
        assert(candidates.filter(keep).contains(kept));
        candidates.lemma_filter_contains_rev(keep, kept);
        let j = choose|j: int| 0 <= j < candidates.len() && candidates[j] == kept;
        let _ = trimmed_parts(text_of(table, classed_below(table, block, class)[j]));
    }
}

/// The people listed depend on the text of the page alone: two answers to
/// the same text list the same people, character for character.
pub proof fn same_page_same_people(
    html: Seq<char>,
    first: FacebookPublicResponse,
    second: FacebookPublicResponse,
)
    requires
        first@ == results_of(loaded(html)),
        second@ == results_of(loaded(html)),
    ensures
        first@ == second@,
{
}

/// What is answered to a search for which the transport returned `fetched`:
/// the people that the fetched page lists, or the transport's error as it
/// came.
pub open spec fn answers<E>(
    fetched: Result<String, E>,
    answer: Result<FacebookPublicResponse, E>,
) -> bool {
    match fetched {
        Ok(html) => answer matches Ok(response) && response@ == results_of(loaded(html@)),
        Err(error) => answer == Err::<FacebookPublicResponse, E>(error),
    }
}

/// Turns the answer to a search into the list of people it holds.
pub struct FacebookPublicRecuperator<T: Requester> {
    requester: T,
}

impl<T: Requester> FacebookPublicRecuperator<T> {
    pub fn new(requester: T) -> (recuperator: Self)
        ensures
            recuperator.requester() == requester,
    {
        FacebookPublicRecuperator { requester }
    }

    /// The transport that pages are fetched with.
    pub closed spec fn requester(&self) -> T {
        self.requester
    }

    /// The profile address in a result block.
    pub fn extract_profile_url(&self, node: &Node) -> (url: String)
        ensures
            url@ == profile_url_of(node.table(), node.index()),
    {
        let wrappers = node.find_class(LINK_WRAPPER);
        let ghost found = classed_below(node.table(), node.index(), LINK_WRAPPER@);
        let ghost piece = |w: usize| first_target(node.table(), w);
        let mut url = String::new();
        let mut k: usize = 0;
        proof {
            assert(found.take(0).map_values(piece) =~= Seq::<Seq<char>>::empty());
        }
        while k < wrappers.len()
            invariant
                k <= wrappers.len(),
                located(wrappers@, node.table(), found),
                piece == |w: usize| first_target(node.table(), w),
                url@ == found.take(k as int).map_values(piece).flatten(),
            decreases wrappers.len() - k,
        {
            let wrapper = wrappers[k];
            let anchors = wrapper.find_name(ANCHOR);
            let ghost before = found.take(k as int).map_values(piece);
            proof {
                assert(found.take(k + 1).map_values(piece) =~= before.push(piece(found[k as int])));
                before.lemma_flatten_push(piece(found[k as int]));
            }
            if anchors.len() > 0 {
                let anchor = anchors[0];
                match anchor.attr(TARGET) {
                    Some(target) => {
                        url.append(target.as_str());
                    },
                    None => {
                        assert(url@ + Seq::<char>::empty() =~= url@);
                    },
                }
            } else {
                assert(url@ + Seq::<char>::empty() =~= url@);
            }
            k += 1;
        }
        proof {
            assert(found.take(k as int) =~= found);
        }
        url
    }

    /// The name in a result block.
    pub fn extract_name(&self, node: &Node) -> (name: String)
        ensures
            name@ == name_of(node.table(), node.index()),
    {
        let elements = node.find_class(NAME);
        let ghost found = classed_below(node.table(), node.index(), NAME@);
        let ghost piece = |n: usize| trimmed(text_of(node.table(), n));
        let mut name = String::new();
        let mut k: usize = 0;
        proof {
            assert(found.take(0).map_values(piece) =~= Seq::<Seq<char>>::empty());
        }
        while k < elements.len()
            invariant
                k <= elements.len(),
                located(elements@, node.table(), found),
                piece == |n: usize| trimmed(text_of(node.table(), n)),
                name@ == found.take(k as int).map_values(piece).flatten(),
            decreases elements.len() - k,
        {
            let element = elements[k];
            let text = element.text();
            let part = trim(text.as_str());
            let ghost before = found.take(k as int).map_values(piece);
            proof {
                assert(found.take(k + 1).map_values(piece) =~= before.push(part@));
                before.lemma_flatten_push(part@);
            }
            name.append(part.as_str());
            k += 1;
        }
        proof {
            assert(found.take(k as int) =~= found);
        }
        name
    }

    /// The picture address in a result block.
    pub fn extract_profile_picture(&self, node: &Node) -> (picture: String)
        ensures
            picture@ == profile_picture_of(node.table(), node.index()),
    {
        let images = node.find_class(PICTURE);
        let ghost found = classed_below(node.table(), node.index(), PICTURE@);
        let ghost piece = |p: usize| or_empty(attribute(node.table(), p, SOURCE@));
        let mut picture = String::new();
        let mut k: usize = 0;
        proof {
            assert(found.take(0).map_values(piece) =~= Seq::<Seq<char>>::empty());
        }
        while k < images.len()
            invariant
                k <= images.len(),
                located(images@, node.table(), found),
                piece == |p: usize| or_empty(attribute(node.table(), p, SOURCE@)),
                picture@ == found.take(k as int).map_values(piece).flatten(),
            decreases images.len() - k,
        {
            let image = images[k];
            let ghost before = found.take(k as int).map_values(piece);
            proof {
                assert(found.take(k + 1).map_values(piece) =~= before.push(piece(found[k as int])));
                before.lemma_flatten_push(piece(found[k as int]));
            }
            match image.attr(SOURCE) {
                Some(source) => {
                    picture.append(source.as_str());
                },
                None => {
                    assert(picture@ + Seq::<char>::empty() =~= picture@);
                },
            }
            k += 1;
        }
        proof {
            assert(found.take(k as int) =~= found);
        }
        picture
    }

    /// The current activity in a result block, if it names one.
    pub fn extract_current_activity(&self, node: &Node) -> (activity: Option<Details>)
        ensures
            match activity {
                Some(details) => current_activity_of(node.table(), node.index()) == Some(
                    details@,
                ),
                None => current_activity_of(node.table(), node.index()) is None,
            },
    {
        let mut kept = self.details_below(node, ACTIVITY);
        if kept.len() > 0 {
            Some(kept.remove(0))
        } else {
            None
        }
    }

    /// The additional information in a result block.
    pub fn extract_additional_information(&self, node: &Node) -> (information: Vec<Details>)
        ensures
            views(information@) == additional_information_of(node.table(), node.index()),
    {
        self.details_below(node, INFO_ITEM)
    }

    /// The person that a result block describes. A block in which nothing is
    /// found gives a person with empty fields.
    pub fn map_to_people(&self, node: Node) -> (people: People)
        ensures
            people@ == person_of(node.table(), node.index()),
    {
        let name = self.extract_name(&node);
        let profile_url = self.extract_profile_url(&node);
        let profile_picture = self.extract_profile_picture(&node);
        let current_activity = self.extract_current_activity(&node);
        let additional_information = self.extract_additional_information(&node);
        People::new(
            name.as_str(),
            profile_url.as_str(),
            profile_picture.as_str(),
            current_activity,
            additional_information,
        )
    }

    /// The document hidden in a comment: the comment's markup without the
    /// comment markers, parsed as the body of a document of its own.
    pub fn comment_to_document(&self, comment: Node) -> (document: Dom)
        ensures
            comment.index() < comment.table().len(),
            document@ == fragment_of(comment.table(), comment.index()),
            comment.table()[comment.index() as int].content matches Content::Comment(inner)
                ==> document@ == loaded(fragment_text(comment_markup(inner))),
    {
        let html = comment.html();
        let opened = remove_all(html.as_str(), COMMENT_OPEN);
        let payload = remove_all(opened.as_str(), COMMENT_CLOSE);
        let mut text = SHELL_OPEN.to_owned();
        text.append(payload.as_str());
        text.append(SHELL_CLOSE);
        Dom::load(text.as_str())
    }

    /// The documents hidden in `document`: one for each comment that is a
    /// child of a hidden container, in document order.
    pub fn extract_hidden_elements(&self, document: Dom) -> (documents: Vec<Dom>)
        ensures
            tables(documents@) == fragments_of(document@),
    {
        let containers = document.find_class(HIDDEN_CONTAINER);
        let ghost table = document@;
        let ghost hidden = classed(table, HIDDEN_CONTAINER@);
        let ghost inside = |h: usize| comment_children(table, h);
        let ghost fragment = |c: usize| fragment_of(table, c);
        let mut documents: Vec<Dom> = Vec::new();
        let mut i: usize = 0;
        proof {
            assert(hidden.take(0).map_values(inside) =~= Seq::<Seq<usize>>::empty());
            assert(tables(documents@) =~= Seq::<usize>::empty().map_values(fragment));
        }
        while i < containers.len()
            invariant
                i <= containers.len(),
                located(containers@, table, hidden),
                inside == |h: usize| comment_children(table, h),
                fragment == |c: usize| fragment_of(table, c),
                tables(documents@) == hidden.take(i as int).map_values(
                    inside,
                ).flatten().map_values(fragment),
            decreases containers.len() - i,
        {
            let container = containers[i];
            let comments = container.comments();
            let ghost found = comment_children(table, hidden[i as int]);
            let ghost before = hidden.take(i as int).map_values(inside);
            let mut j: usize = 0;
            proof {
                assert(before.flatten() + found.take(0) =~= before.flatten());
            }
            while j < comments.len()
                invariant
                    j <= comments.len(),
                    located(comments@, table, found),
                    fragment == |c: usize| fragment_of(table, c),
                    tables(documents@) == (before.flatten() + found.take(j as int)).map_values(
                        fragment,
                    ),
                decreases comments.len() - j,
            {
                let ghost done = documents@;
                let fresh = self.comment_to_document(comments[j]);
                documents.push(fresh);
                proof {
                    assert(before.flatten() + found.take(j + 1) =~= (before.flatten() + found.take(
                        j as int,
                    )).push(found[j as int]));
                    assert(tables(documents@) =~= tables(done).push(fresh@));
                    assert((before.flatten() + found.take(j + 1)).map_values(fragment) =~= (
                    before.flatten() + found.take(j as int)).map_values(fragment).push(fresh@));
                }
                j += 1;
            }
            proof {
                assert(found.take(j as int) =~= found);
                assert(hidden.take(i + 1).map_values(inside) =~= before.push(found));
                before.lemma_flatten_push(found);
            }
            i += 1;
        }
        proof {
            assert(hidden.take(i as int) =~= hidden);
        }
        documents
    }

    /// The people that a page lists: those of every result block of every
    /// hidden document, in document order.
    pub fn extract_results(&self, document: Dom) -> (results: Vec<People>)
        ensures
            people_views(results@) == results_of(document@),
    {
        let ghost table = document@;
        let documents = self.extract_hidden_elements(document);
        let ghost fragments = fragments_of(table);
        let ghost listed = |f: Seq<Entry>| people_of(f);
        let mut results: Vec<People> = Vec::new();
        let mut i: usize = 0;
        proof {
            assert(fragments.take(0).map_values(listed) =~= Seq::<Seq<PeopleView>>::empty());
            assert(people_views(results@) =~= Seq::<PeopleView>::empty());
        }
        while i < documents.len()
            invariant
                i <= documents.len(),
                tables(documents@) == fragments,
                listed == |f: Seq<Entry>| people_of(f),
                people_views(results@) == fragments.take(i as int).map_values(listed).flatten(),
            decreases documents.len() - i,
        {
            let blocks = documents[i].find_class(RESULT_BLOCK);
            let ghost fragment = fragments[i as int];
            let ghost found = classed(fragment, RESULT_BLOCK@);
            let ghost person = |b: usize| person_of(fragment, b);
            let ghost before = fragments.take(i as int).map_values(listed);
            let mut j: usize = 0;
            proof {
                assert(documents@[i as int]@ == tables(documents@)[i as int]);
                assert(before.flatten() + found.take(0).map_values(person) =~= before.flatten());
            }
            while j < blocks.len()
                invariant
                    j <= blocks.len(),
                    located(blocks@, fragment, found),
                    person == |b: usize| person_of(fragment, b),
                    people_views(results@) == before.flatten() + found.take(j as int).map_values(
                        person,
                    ),
                decreases blocks.len() - j,
            {
                let ghost done = results@;
                let people = self.map_to_people(blocks[j]);
                results.push(people);
                proof {
                    assert(people_views(results@) =~= people_views(done).push(people@));
                    assert(found.take(j + 1).map_values(person) =~= found.take(
                        j as int,
                    ).map_values(person).push(people@));
                }
                j += 1;
            }
            proof {
                assert(found.take(j as int) =~= found);
                assert(fragments.take(i + 1).map_values(listed) =~= before.push(
                    people_of(fragment),
                ));
                before.lemma_flatten_push(people_of(fragment));
            }
            i += 1;
        }
        proof {
            assert(fragments.take(i as int) =~= fragments);
        }
        results
    }

    /// The answer to a search, given what the transport returned for it: the
    /// people that the page lists, or the transport's error as it came.
    pub fn respond(&self, fetched: Result<String, T::Error>) -> (answer: Result<
        FacebookPublicResponse,
        T::Error,
    >)
        ensures
            answers(fetched, answer),
    {
        match fetched {
            Ok(html) => {
                let document = Dom::load(html.as_str());
                let results = self.extract_results(document);
                Ok(FacebookPublicResponse::new(results))
            },
            Err(error) => Err(error),
        }
    }

    /// Fetches the page for `request` and answers with the people it lists.
    /// The transport is asked once, for the query of the request, and the
    /// answer is the one that `respond` gives to what the transport returned:
    /// only the transport can fail, and its error is handed on as it came.
    pub fn compute(&self, request: FacebookPublicRequest) -> (answer: Result<
        FacebookPublicResponse,
        T::Error,
    >)
        ensures
            exists|query: &str, fetched: Result<String, T::Error>|
                query@ == request.query@ && #[trigger] call_ensures(
                    T::request,
                    (&self.requester(), query),
                    fetched,
                ) && answers(fetched, answer),
    {
        let query = request.query.as_str();
        let fetched = self.requester.request(query);
        let ghost returned = fetched;
        let answer = self.respond(fetched);
        proof {
            assert(call_ensures(T::request, (&self.requester(), query), returned));
        }
        answer
    }

    /// The detail that one element holds.
    fn detail_at(&self, node: &Node) -> (details: Details)
        ensures
            details@ == detail_of(node.table(), node.index()),
    {
        let text = node.text();
        let label = trim(text.as_str());
        let anchors = node.find_name(ANCHOR);
        let url = if anchors.len() > 0 {
            let anchor = anchors[anchors.len() - 1];
            match anchor.attr(TARGET) {
                Some(target) => target,
                None => String::new(),
            }
        } else {
            String::new()
        };
        Details { label, url }
    }

    /// The details that the elements of class `class` below `node` hold,
    /// without those whose label is empty.
    fn details_below(&self, node: &Node, class: &str) -> (details: Vec<Details>)
        ensures
            views(details@) == details_of(node.table(), node.index(), class@),
    {
        let elements = node.find_class(class);
        let ghost found = classed_below(node.table(), node.index(), class@);
        let ghost detail = |n: usize| detail_of(node.table(), n);
        let ghost keep = |d: DetailsView| d.label.len() > 0;
        let mut details: Vec<Details> = Vec::new();
        let mut k: usize = 0;
        proof {
            reveal(Seq::filter);
            assert(found.take(0).map_values(detail).filter(keep) =~= Seq::<DetailsView>::empty());
            assert(views(details@) =~= Seq::<DetailsView>::empty());
        }
        while k < elements.len()
            invariant
                k <= elements.len(),
                located(elements@, node.table(), found),
                detail == |n: usize| detail_of(node.table(), n),
                keep == |d: DetailsView| d.label.len() > 0,
                views(details@) == found.take(k as int).map_values(detail).filter(keep),
            decreases elements.len() - k,
        {
            let element = elements[k];
            let candidate = self.detail_at(&element);
            let ghost before = found.take(k as int).map_values(detail);
            let ghost kept = details@;
            proof {
                assert(found.take(k + 1).map_values(detail) =~= before.push(candidate@));
                before.lemma_filter_push(candidate@, keep);
            }
            if !candidate.label.as_str().is_empty() {
                details.push(candidate);
                proof {
                    assert(views(details@) =~= views(kept).push(candidate@));
                }
            }
            k += 1;
        }
        proof {
            assert(found.take(k as int) =~= found);
        }
        details
    }
}

} // verus!
