//! The static page structure, as plain markup values.
//!
//! The browser shell renders these trees with its own UI toolkit; here
//! they are ordinary values, so what each page contains — and which
//! navigation entry is marked active — is stated and checked.

use crate::text::str_eq;
use vstd::prelude::*;

verus! {

/// One markup node: an element with a tag, attributes and children, or a
/// text node with an empty tag.
#[derive(Debug)]
pub struct Node {
    pub tag: String,
    pub text: String,
    pub attrs: Vec<(String, String)>,
    pub children: Vec<Node>,
}

/// An element with no attributes or children yet.
fn element(tag: &str) -> (r: Node)
    ensures
        r.tag@ == tag@,
        r.text@ =~= Seq::<char>::empty(),
        r.attrs@ =~= Seq::<(String, String)>::empty(),
        r.children@ =~= Seq::<Node>::empty(),
{
    Node {
        tag: String::from_str(tag),
        text: String::new(),
        attrs: Vec::new(),
        children: Vec::new(),
    }
}

/// A text node.
fn text_node(text: &str) -> (r: Node)
    ensures
        r.tag@ =~= Seq::<char>::empty(),
        r.text@ == text@,
        r.attrs@ =~= Seq::<(String, String)>::empty(),
        r.children@ =~= Seq::<Node>::empty(),
{
    Node {
        tag: String::new(),
        text: String::from_str(text),
        attrs: Vec::new(),
        children: Vec::new(),
    }
}

/// Appends one attribute.
fn push_attr(n: &mut Node, key: &str, value: &str)
    ensures
        final(n).tag == old(n).tag,
        final(n).text == old(n).text,
        final(n).children == old(n).children,
        final(n).attrs@.len() == old(n).attrs@.len() + 1,
        final(n).attrs@.last().0@ == key@ && final(n).attrs@.last().1@ == value@,
        forall|i: int| 0 <= i < old(n).attrs@.len() ==> final(n).attrs@[i] == old(n).attrs@[i],
{
    n.attrs.push((String::from_str(key), String::from_str(value)));
}

impl Node {
    /// The value of the named attribute, or nothing.
    pub fn attr(&self, key: &str) -> (r: Option<&String>)
        ensures
            r is Some ==> exists|i: int|
                0 <= i < self.attrs@.len() && (#[trigger] self.attrs@[i]).0@ == key@
                    && self.attrs@[i].1 == *(r->0),
            r is None ==> forall|i: int|
                0 <= i < self.attrs@.len() ==> (#[trigger] self.attrs@[i]).0@ != key@,
    {
        let mut i: usize = 0;
        while i < self.attrs.len()
            invariant
                i <= self.attrs@.len(),
                forall|k: int| 0 <= k < i ==> (#[trigger] self.attrs@[k]).0@ != key@,
            decreases self.attrs@.len() - i,
        {
            if str_eq(self.attrs[i].0.as_str(), key) {
                return Some(&self.attrs[i].1);
            }
            i = i + 1;
        }
        None
    }
}

/// The link that carries the site logo back to the home page.
fn logo_link() -> (r: Node)
    ensures
        r.tag@ == "Link"@,
        r.attrs@.len() == 1 && r.attrs@[0].0@ == "to"@ && r.attrs@[0].1@ == "/"@,
        r.children@.len() == 1,
        r.children@[0].tag@ == "img"@,
        r.children@[0].attrs@[0].0@ == "src"@ && r.children@[0].attrs@[0].1@ == "logo.svg"@,
        r.children@[0].attrs@[1].0@ == "alt"@ && r.children@[0].attrs@[1].1@ == "Oceanchat Logo"@,
{
    let mut img = element("img");
    push_attr(&mut img, "src", "logo.svg");
    push_attr(&mut img, "alt", "Oceanchat Logo");
    let mut link = element("Link");
    push_attr(&mut link, "to", "/");
    link.children.push(img);
    link
}

/// The banner across the top of a page: the logo linking home and the
/// site title.
#[allow(non_snake_case)]
pub fn top_bar() -> (r: Node)
    ensures
        r.tag@ == "div"@,
        r.attrs@.len() == 1 && r.attrs@[0].0@ == "background_color"@ && r.attrs@[0].1@
            == "#0a5f98"@,
        r.children@.len() == 1 && r.children@[0].tag@ == "div"@,
        r.children@[0].children@.len() == 2,
        r.children@[0].children@[0].tag@ == "Link"@,
        r.children@[0].children@[1].tag@ == "div"@,
        r.children@[0].children@[1].children@.len() == 1,
        r.children@[0].children@[1].children@[0].text@ == "OceanChat"@,
{
    let mut title = element("div");
    title.children.push(text_node("OceanChat"));
    let mut inner = element("div");
    inner.children.push(logo_link());
    inner.children.push(title);
    let mut bar = element("div");
    push_attr(&mut bar, "background_color", "#0a5f98");
    bar.children.push(inner);
    bar
}

/// The fixed navigation bar: the logo link home, then the chat and
/// personality entries; exactly the entry for the shown page carries the
/// active mark.
#[allow(non_snake_case)]
pub fn Navbar(active_chat: bool) -> (r: Node)
    ensures
        r.tag@ == "nav"@,
        r.children@.len() == 1 && r.children@[0].tag@ == "ul"@,
        r.children@[0].children@.len() == 3,
        r.children@[0].children@[0].tag@ == "Link"@,
        ({
            let chat = r.children@[0].children@[1];
            chat.tag@ == "li"@ && chat.children@.len() == 1 && chat.children@[0].tag@ == "Link"@
                && chat.children@[0].attrs@[0].1@ == "/chat"@ && chat.children@[0].attrs@[1].1@
                == (if active_chat {
                "active"@
            } else {
                ""@
            })
        }),
        ({
            let personality = r.children@[0].children@[2];
            personality.tag@ == "li"@ && personality.children@.len() == 1
                && personality.children@[0].tag@ == "Link"@
                && personality.children@[0].attrs@[0].1@ == "/personality"@
                && personality.children@[0].attrs@[1].1@ == (if active_chat {
                ""@
            } else {
                "active"@
            })
        }),
{
    let mut chat_link = element("Link");
    push_attr(&mut chat_link, "to", "/chat");
    push_attr(&mut chat_link, "class", if active_chat {
        "active"
    } else {
        ""
    });
    chat_link.children.push(text_node("Chat"));
    let mut chat_item = element("li");
    chat_item.children.push(chat_link);

    let mut personality_link = element("Link");
    push_attr(&mut personality_link, "to", "/personality");
    push_attr(&mut personality_link, "class", if active_chat {
        ""
    } else {
        "active"
    });
    personality_link.children.push(text_node("My personality"));
    let mut personality_item = element("li");
    personality_item.children.push(personality_link);

    let mut list = element("ul");
    list.children.push(logo_link());
    list.children.push(chat_item);
    list.children.push(personality_item);

    let mut nav = element("nav");
    nav.children.push(list);
    nav
}

/// The landing page: the banner, the pitch, and the box that starts the
/// personality test.
#[allow(non_snake_case)]
pub fn Splash() -> (r: Node)
    ensures
        r.tag@ == "div"@,
        r.children@.len() == 2,
        r.children@[0].tag@ == "div"@ && r.children@[0].attrs@[0].1@ == "#0a5f98"@,
        ({
            let content = r.children@[1];
            content.tag@ == "div"@ && content.attrs@[0].1@ == "content"@
                && content.children@.len() == 2
                && content.children@[0].children@[0].children@[0].text@
                == "Engage with Similar Minds"@
                && content.children@[1].children@[0].children@[0].children@[0].text@
                == "Get started!"@
        }),
{
    let mut heading = element("h2");
    heading.children.push(text_node("Engage with Similar Minds"));
    let mut pitch = element("div");
    pitch.children.push(heading);
    pitch.children.push(
        text_node(
            "OceanChat offers a personality-based chat experience. Using the only general personality test taken seriously by researchers, we can scientifically measure how similar you are to anyone else.",
        ),
    );

    let mut start_heading = element("h2");
    start_heading.children.push(text_node("Get started!"));
    let mut start_box = element("div");
    push_attr(&mut start_box, "class", "main-box");
    start_box.children.push(start_heading);
    let mut start_column = element("div");
    start_column.children.push(start_box);

    let mut content = element("div");
    push_attr(&mut content, "class", "content");
    content.children.push(pitch);
    content.children.push(start_column);

    let mut page = element("div");
    page.children.push(top_bar());
    page.children.push(content);
    page
}

} // verus!
