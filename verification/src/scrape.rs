//! Reading model names, tags and sizes from the pages of ollama.com.

use vstd::prelude::*;
use vstd::slice::slice_subrange;

use crate::text;
use crate::types;

verus! {

/// The position of the first `marker` in `s`; the length of `s` if there is none.
pub open spec fn first_marker(s: Seq<char>, marker: Seq<char>) -> nat
    decreases s.len(),
{
    if s.len() == 0 || text::has_prefix(s, marker) {
        0
    } else {
        1 + first_marker(s.skip(1), marker)
    }
}

/// A link and the text between it and the next.
pub struct LinkView {
    pub target: Seq<char>,
    pub text: Seq<char>,
}

/// The links that start with `marker`: what stands between the marker and the next
/// quotation mark, and the text up to the next marker.
pub open spec fn links(s: Seq<char>, marker: Seq<char>) -> Seq<LinkView>
    decreases s.len(),
{
    if s.len() == 0 || marker.len() == 0 {
        Seq::empty()
    } else if text::has_prefix(s, marker) {
        let after = s.skip(marker.len() as int);
        let target = after.take(types::first_char(after, '"'));
        Seq::empty().push(
            LinkView { target, text: after.take(first_marker(after, marker) as int) },
        ) + links(after, marker)
    } else {
        links(s.skip(1), marker)
    }
}

pub struct Link {
    pub target: String,
    pub text: String,
}

impl View for Link {
    type V = LinkView;

    open spec fn view(&self) -> LinkView {
        LinkView { target: self.target@, text: self.text@ }
    }
}

pub open spec fn link_views(list: Seq<Link>) -> Seq<LinkView> {
    Seq::new(list.len(), |i: int| list[i]@)
}

fn find_marker(s: &[char], marker: &[char]) -> (r: usize)
    ensures
        r == first_marker(s@, marker@),
        r <= s@.len(),
{
    let mut i: usize = 0;
    assert(s@.skip(0) =~= s@);
    loop
        invariant
            i <= s@.len(),
            i + first_marker(s@.skip(i as int), marker@) == first_marker(s@, marker@),
        decreases s.len() - i,
    {
        if i == s.len() {
            return i;
        }
        let rest = slice_subrange(s, i, s.len());
        assert(rest@ =~= s@.skip(i as int));
        if text::starts_with(rest, marker) {
            return i;
        }
        assert(s@.skip(i as int).skip(1) =~= s@.skip(i + 1));
        i = i + 1;
    }
}

fn find_links(page: &[char], marker: &[char]) -> (r: Vec<Link>)
    requires
        marker@.len() > 0,
    ensures
        link_views(r@) == links(page@, marker@),
{
    let mut out: Vec<Link> = Vec::new();
    let mut i: usize = 0;
    assert(page@.skip(0) =~= page@);
    assert(link_views(out@) =~= Seq::<LinkView>::empty());
    assert(link_views(out@) + links(page@, marker@) =~= links(page@, marker@));
    while i < page.len()
        invariant
            marker@.len() > 0,
            i <= page@.len(),
            link_views(out@) + links(page@.skip(i as int), marker@) == links(page@, marker@),
        decreases page.len() - i,
    {
        let rest = slice_subrange(page, i, page.len());
        assert(rest@ =~= page@.skip(i as int));
        if text::starts_with(rest, marker) {
            let next: usize = i + marker.len();
            let after = slice_subrange(page, next, page.len());
            assert(after@ =~= rest@.skip(marker@.len() as int));
            assert(after@ =~= page@.skip(next as int));
            let quote = types::position(after, '"');
            let end = find_marker(after, marker);
            let target = slice_subrange(after, 0, quote);
            let words = slice_subrange(after, 0, end);
            assert(target@ =~= after@.take(types::first_char(after@, '"')));
            assert(words@ =~= after@.take(first_marker(after@, marker@) as int));
            let link = Link { target: text::string_of(target), text: text::string_of(words) };
            let ghost so_far = link_views(out@);
            out.push(link);
            proof {
                assert(link_views(out@) =~= so_far.push(link@));
                let tail = links(after@, marker@);
                assert(so_far + (Seq::empty().push(link@) + tail) =~= so_far.push(link@) + tail);
            }
            i = next;
        } else {
            assert(page@.skip(i as int).skip(1) =~= page@.skip(i + 1));
            i = i + 1;
        }
    }
    assert(links(page@.skip(i as int), marker@) =~= Seq::<LinkView>::empty());
    assert(link_views(out@) + Seq::<LinkView>::empty() =~= link_views(out@));
    out
}

/// A target that names a model, and no page below it.
pub open spec fn is_plain_name(target: Seq<char>) -> bool {
    target.len() > 0 && types::count_char(target, '/') == 0 && types::count_char(target, ':') == 0
        && types::count_char(target, '?') == 0 && types::count_char(target, '#') == 0
}

fn plain_name(target: &str) -> (r: bool)
    ensures
        r == is_plain_name(target@),
{
    let chars = text::chars_of(target);
    chars.len() > 0 && types::count_of(chars.as_slice(), '/') == 0 && types::count_of(
        chars.as_slice(),
        ':',
    ) == 0 && types::count_of(chars.as_slice(), '?') == 0 && types::count_of(chars.as_slice(), '#')
        == 0
}

/// The names of models among the links, each once, in order.
pub open spec fn model_names(list: Seq<LinkView>) -> Seq<Seq<char>>
    decreases list.len(),
{
    if list.len() == 0 {
        Seq::empty()
    } else {
        let head = model_names(list.drop_last());
        let name = list.last().target;
        if is_plain_name(name) && !head.contains(name) {
            head.push(name)
        } else {
            head
        }
    }
}

fn listed(names: &Vec<String>, name: &str) -> (r: bool)
    ensures
        r == text::texts(names@).contains(name@),
{
    for i in 0..names.len()
        invariant
            forall|j: int| 0 <= j < i ==> (#[trigger] text::texts(names@)[j]) != name@,
    {
        if text::same_text(names[i].as_str(), name) {
            assert(text::texts(names@)[i as int] == name@);
            return true;
        }
    }
    false
}

/// The models that a search page links to, in the order of the page.
pub fn library_names(html: &str) -> (r: Vec<String>)
    ensures
        text::texts(r@) == model_names(links(html@, "href=\"/library/"@)),
{
    let page = text::chars_of(html);
    let marker = text::chars_of("href=\"/library/");
    proof {
        reveal_strlit("href=\"/library/");
    }
    let found = find_links(page.as_slice(), marker.as_slice());
    let ghost all = link_views(found@);
    let mut names: Vec<String> = Vec::new();
    for i in 0..found.len()
        invariant
            all == link_views(found@),
            text::texts(names@) =~= model_names(all.take(i as int)),
    {
        assert(all.take(i + 1).drop_last() =~= all.take(i as int));
        let name = found[i].target.as_str();
        if plain_name(name) && !listed(&names, name) {
            let ghost so_far = text::texts(names@);
            names.push(name.to_string());
            assert(text::texts(names@) =~= so_far.push(name@));
        }
    }
    assert(all.take(found@.len() as int) =~= all);
    names
}

/// A word that gives a size of a thousand bytes or more.
pub open spec fn is_size_word(word: Seq<char>) -> bool {
    types::human_size(word) matches Some(n) && n >= 1000
}

/// The first such word, from `from` on.
pub open spec fn first_size(words: Seq<Seq<char>>, from: int) -> Option<Seq<char>>
    decreases words.len() - from,
{
    if from < 0 || from >= words.len() {
        None
    } else if is_size_word(words[from]) {
        Some(words[from])
    } else {
        first_size(words, from + 1)
    }
}

/// The size that the text behind a link gives.
pub open spec fn size_in(words: Seq<char>) -> Option<Seq<char>> {
    first_size(text::trim_all(text::split(words, "<>\u{2022}\u{b7}"@)), 0)
}

fn find_size(words: &str) -> (r: Option<String>)
    ensures
        text::opt_text(r) == size_in(words@),
{
    let chars = text::chars_of(words);
    let separators = text::chars_of("<>\u{2022}\u{b7}");
    let pieces = text::fields(chars.as_slice(), separators.as_slice());
    let ghost all = text::buffers(pieces@);
    for i in 0..pieces.len()
        invariant
            all == text::buffers(pieces@),
            first_size(all, 0) == first_size(all, i as int),
            all == text::trim_all(text::split(words@, "<>\u{2022}\u{b7}"@)),
    {
        let word = text::string_of(pieces[i].as_slice());
        assert(all[i as int] == word@);
        if let Some(n) = types::parse_human_size_bytes(word.as_str()) {
            if n >= 1000 {
                return Some(word);
            }
        }
    }
    None
}

/// A tag of a model, with the size that the page gives for it.
pub struct FoundTag {
    pub tag: String,
    pub approx_size: Option<String>,
}

pub open spec fn tag_views(list: Seq<FoundTag>) -> Seq<(Seq<char>, Option<Seq<char>>)> {
    Seq::new(list.len(), |i: int| (list[i].tag@, text::opt_text(list[i].approx_size)))
}

pub open spec fn has_tag(list: Seq<(Seq<char>, Option<Seq<char>>)>, tag: Seq<char>) -> bool {
    exists|i: int| 0 <= i < list.len() && (#[trigger] list[i]).0 == tag
}

/// The tags among the links, each once, in order. The first link to a tag says
/// its size.
pub open spec fn tags_in(list: Seq<LinkView>) -> Seq<(Seq<char>, Option<Seq<char>>)>
    decreases list.len(),
{
    if list.len() == 0 {
        Seq::empty()
    } else {
        let head = tags_in(list.drop_last());
        let tag = list.last().target;
        if is_plain_name(tag) && !has_tag(head, tag) {
            head.push((tag, size_in(list.last().text)))
        } else {
            head
        }
    }
}

fn tag_listed(list: &Vec<FoundTag>, tag: &str) -> (r: bool)
    ensures
        r == has_tag(tag_views(list@), tag@),
{
    for i in 0..list.len()
        invariant
            forall|j: int| 0 <= j < i ==> (#[trigger] tag_views(list@)[j]).0 != tag@,
    {
        if text::same_text(list[i].tag.as_str(), tag) {
            assert(tag_views(list@)[i as int].0 == tag@);
            return true;
        }
    }
    false
}

/// The tags that a model's tag page links to, in the order of the page.
pub fn model_tags(model: &str, html: &str) -> (r: Vec<FoundTag>)
    ensures
        tag_views(r@) == tags_in(links(html@, "href=\"/library/"@ + model@ + ":"@)),
{
    let page = text::chars_of(html);
    let marker_text = "href=\"/library/".to_string().concat(model).concat(":");
    let marker = text::chars_of(marker_text.as_str());
    proof {
        reveal_strlit(":");
        assert(marker@.len() > 0);
    }
    let found = find_links(page.as_slice(), marker.as_slice());
    let ghost all = link_views(found@);
    let mut tags: Vec<FoundTag> = Vec::new();
    for i in 0..found.len()
        invariant
            all == link_views(found@),
            tag_views(tags@) =~= tags_in(all.take(i as int)),
    {
        assert(all.take(i + 1).drop_last() =~= all.take(i as int));
        let tag = found[i].target.as_str();
        if plain_name(tag) && !tag_listed(&tags, tag) {
            let ghost so_far = tag_views(tags@);
            let entry = FoundTag {
                tag: tag.to_string(),
                approx_size: find_size(found[i].text.as_str()),
            };
            tags.push(entry);
            assert(tag_views(tags@) =~= so_far.push(
                (entry.tag@, text::opt_text(entry.approx_size)),
            ));
        }
    }
    assert(all.take(found@.len() as int) =~= all);
    tags
}

/// No model is named twice.
pub proof fn law_names_are_distinct(list: Seq<LinkView>)
    ensures
        model_names(list).no_duplicates(),
    decreases list.len(),
{
    if list.len() > 0 {
        law_names_are_distinct(list.drop_last());
    }
}

/// Up to the first marker a page has no link; there it has one, to what stands before
/// the next quotation mark; and the others are those behind it.
pub proof fn law_links_stand_behind_markers(before: Seq<char>, marker: Seq<char>, after: Seq<char>)
    requires
        marker.len() > 0,
        forall|i: int|
            0 <= i < before.len() ==> !text::has_prefix(
                #[trigger] (before + marker + after).skip(i),
                marker,
            ),
    ensures
        ({
            let found = links(before + marker + after, marker);
            &&& found.len() == 1 + links(after, marker).len()
            &&& found[0].target.len() <= after.len()
            &&& found[0].target == after.take(found[0].target.len() as int)
            &&& forall|i: int| 0 <= i < found[0].target.len() ==> #[trigger] found[0].target[i] != '"'
            &&& found[0].target.len() < after.len() ==> after[found[0].target.len() as int] == '"'
            &&& found.skip(1) == links(after, marker)
        }),
        links(Seq::empty(), marker).len() == 0,
    decreases before.len(),
{
    let page = before + marker + after;
    if before.len() == 0 {
        assert(page.take(marker.len() as int) =~= marker);
        assert(page.skip(marker.len() as int) =~= after);
        let quote = types::first_char(after, '"');
        types::lemma_first_char(after, '"');
        let one = Seq::<LinkView>::empty().push(
            LinkView {
                target: after.take(quote),
                text: after.take(first_marker(after, marker) as int),
            },
        );
        assert((one + links(after, marker)).skip(1) =~= links(after, marker));
    } else {
        let rest = before.drop_first();
        assert(page.skip(0) =~= page);
        assert(page.skip(1) =~= rest + marker + after);
        assert forall|i: int| 0 <= i < rest.len() implies !text::has_prefix(
            #[trigger] (rest + marker + after).skip(i),
            marker,
        ) by {
            assert((rest + marker + after).skip(i) =~= page.skip(i + 1));
        }
        law_links_stand_behind_markers(rest, marker, after);
    }
}

/// A target is a plain name exactly when it is not empty and has no slash, colon,
/// question mark or number sign.
pub proof fn law_plain_names(target: Seq<char>)
    ensures
        is_plain_name(target) <==> target.len() > 0 && forall|i: int|
            0 <= i < target.len() ==> #[trigger] target[i] != '/' && target[i] != ':' && target[i]
                != '?' && target[i] != '#',
{
    lemma_absent(target, '/');
    lemma_absent(target, ':');
    lemma_absent(target, '?');
    lemma_absent(target, '#');
}

proof fn lemma_absent(s: Seq<char>, c: char)
    ensures
        types::count_char(s, c) == 0 <==> forall|i: int| 0 <= i < s.len() ==> #[trigger] s[i] != c,
    decreases s.len(),
{
    if s.len() > 0 {
        let rest = s.drop_last();
        lemma_absent(rest, c);
        if types::count_char(s, c) == 0 {
            assert forall|i: int| 0 <= i < s.len() implies #[trigger] s[i] != c by {
                if i < rest.len() {
                    assert(rest[i] != c);
                }
            }
        }
        if forall|i: int| 0 <= i < s.len() ==> #[trigger] s[i] != c {
            assert forall|i: int| 0 <= i < rest.len() implies #[trigger] rest[i] != c by {
                assert(s[i] != c);
            }
            assert(s[s.len() - 1] != c);
        }
    }
}

/// One more link adds its target to the names if it is plain and new, and its tag to
/// the tags, with the size behind it.
pub proof fn law_one_more_link(list: Seq<LinkView>, link: LinkView)
    ensures
        ({
            let names = model_names(list);
            let tags = tags_in(list);
            let new_name = is_plain_name(link.target) && forall|i: int|
                0 <= i < names.len() ==> #[trigger] names[i] != link.target;
            let new_tag = is_plain_name(link.target) && forall|i: int|
                0 <= i < tags.len() ==> (#[trigger] tags[i]).0 != link.target;
            &&& new_name ==> model_names(list.push(link)) == names.push(link.target)
            &&& !new_name ==> model_names(list.push(link)) == names
            &&& new_tag ==> tags_in(list.push(link)) == tags.push(
                (link.target, size_in(link.text)),
            )
            &&& !new_tag ==> tags_in(list.push(link)) == tags
        }),
        model_names(Seq::empty()).len() == 0,
        tags_in(Seq::empty()).len() == 0,
{
    assert(list.push(link).drop_last() =~= list);
    let names = model_names(list);
    if names.contains(link.target) {
        let i = choose|i: int| 0 <= i < names.len() && names[i] == link.target;
        assert(names[i] == link.target);
    }
}

/// The size is the first of the words between tags and bullets that stands for a
/// thousand bytes or more.
pub proof fn law_first_size_is_taken(words: Seq<Seq<char>>, k: int)
    requires
        0 <= k <= words.len(),
        forall|i: int|
            0 <= i < k ==> (types::human_size(#[trigger] words[i]) matches Some(n) ==> n < 1000),
    ensures
        k == words.len() ==> first_size(words, 0) is None,
        k < words.len() && types::human_size(words[k]) is Some && types::human_size(
            words[k],
        )->Some_0 >= 1000 ==> first_size(words, 0) == Some(words[k]),
{
    lemma_first_size_from(words, 0, k);
}

proof fn lemma_first_size_from(words: Seq<Seq<char>>, from: int, k: int)
    requires
        0 <= from <= k <= words.len(),
        forall|i: int|
            from <= i < k ==> (types::human_size(#[trigger] words[i]) matches Some(n) ==> n < 1000),
    ensures
        first_size(words, from) == first_size(words, k),
    decreases k - from,
{
    if from < k {
        assert(!is_size_word(words[from]));
        lemma_first_size_from(words, from + 1, k);
    }
}

/// The text of a link goes up to the next marker, or to the end of the page.
pub proof fn law_text_goes_up_to_the_next_marker(after: Seq<char>, marker: Seq<char>)
    requires
        marker.len() > 0,
    ensures
        ({
            let n = first_marker(after, marker) as int;
            &&& n <= after.len()
            &&& n < after.len() ==> text::has_prefix(after.skip(n), marker)
            &&& forall|i: int| 0 <= i < n ==> !text::has_prefix(#[trigger] after.skip(i), marker)
            &&& links(marker + after, marker)[0].text == after.take(n)
        }),
{
    lemma_first_marker(after, marker);
    let page = marker + after;
    assert(page.take(marker.len() as int) =~= marker);
    assert(page.skip(marker.len() as int) =~= after);
}

proof fn lemma_first_marker(s: Seq<char>, marker: Seq<char>)
    ensures
        ({
            let n = first_marker(s, marker) as int;
            &&& n <= s.len()
            &&& n < s.len() ==> text::has_prefix(s.skip(n), marker)
            &&& forall|i: int| 0 <= i < n ==> !text::has_prefix(#[trigger] s.skip(i), marker)
        }),
    decreases s.len(),
{
    assert(s.skip(0) =~= s);
    if s.len() > 0 && !text::has_prefix(s, marker) {
        let rest = s.skip(1);
        lemma_first_marker(rest, marker);
        let m = first_marker(rest, marker) as int;
        assert(rest.skip(m) =~= s.skip(m + 1));
        assert forall|i: int| 0 <= i < m + 1 implies !text::has_prefix(#[trigger] s.skip(i), marker) by {
            if i > 0 {
                assert(rest.skip(i - 1) =~= s.skip(i));
            }
        }
    }
}

/// The size behind a link is looked for in what stands between angle brackets and
/// bullets.
pub proof fn law_sizes_stand_between_marks(parts: Seq<Seq<char>>, mark: char)
    requires
        parts.len() > 0,
        mark == '<' || mark == '>' || mark == '\u{2022}' || mark == '\u{b7}',
        forall|k: int, i: int|
            0 <= k < parts.len() && 0 <= i < parts[k].len() ==> #[trigger] parts[k][i] != '<'
                && parts[k][i] != '>' && parts[k][i] != '\u{2022}' && parts[k][i] != '\u{b7}',
    ensures
        size_in(text::join(parts, seq![mark])) == first_size(text::trim_all(parts), 0),
{
    let seps = "<>\u{2022}\u{b7}"@;
    reveal_strlit("<>\u{2022}\u{b7}");
    assert(seps[0] == '<' && seps[1] == '>' && seps[2] == '\u{2022}' && seps[3] == '\u{b7}');
    assert(seps.contains(mark));
    assert forall|k: int, i: int| 0 <= k < parts.len() && 0 <= i < parts[k].len() implies !seps.contains(
        #[trigger] parts[k][i],
    ) by {
        if seps.contains(parts[k][i]) {
            let m = choose|m: int| 0 <= m < seps.len() && seps[m] == parts[k][i];
            assert(m == 0 || m == 1 || m == 2 || m == 3);
        }
    }
    text::law_split_undoes_join(parts, mark, seps);
}

} // verus!
