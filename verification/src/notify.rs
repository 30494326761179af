//! Desktop notifications.

use vstd::prelude::*;
use vstd::string::*;

use crate::text::{maybe, texts};

verus! {

/// The options with which a notification is sent.
pub open spec fn send_options(icon: Seq<char>, image: Option<Seq<char>>, tag: Seq<char>) -> Seq<
    Seq<char>,
> {
    let first = seq!["--app-name=EpochShell"@, "--icon="@ + icon];
    let second = match image {
        Some(path) => first.push("--hint=string:image-path:"@ + path),
        None => first,
    };
    if tag.len() > 0 {
        second.push("--hint=string:x-canonical-private-synchronous:"@ + tag)
    } else {
        second
    }
}

/// Whether these are the arguments with which a notification is sent.
pub open spec fn is_sent(
    r: Result<Vec<String>, String>,
    installed: bool,
    summary: Seq<char>,
    body: Seq<char>,
    icon: Seq<char>,
    image: Option<Seq<char>>,
    tag: Seq<char>,
) -> bool {
    match r {
        Ok(arguments) => installed && texts(arguments@) == send_options(icon, image, tag) + seq![
            summary,
            body,
        ],
        Err(message) => !installed && message@ == "notify-send is not installed"@,
    }
}

/// The arguments with which a notification is sent, where the program that sends it is installed.
///
/// The image is shown as a thumbnail. A notification takes the place of an earlier one with the
/// same tag.
pub fn send(
    installed: bool,
    summary: &str,
    body: &str,
    icon: &str,
    image: Option<&str>,
    tag: &str,
) -> (r: Result<Vec<String>, String>)
    ensures
        is_sent(r, installed, summary@, body@, icon@, maybe(image), tag@),
{
    if !installed {
        return Err("notify-send is not installed".to_owned());
    }
    let mut out: Vec<String> = Vec::new();
    out.push("--app-name=EpochShell".to_owned());
    let mut with_icon = "--icon=".to_owned();
    with_icon.append(icon);
    out.push(with_icon);
    if let Some(path) = image {
        let mut hint = "--hint=string:image-path:".to_owned();
        hint.append(path);
        out.push(hint);
    }
    if !tag.is_empty() {
        let mut hint = "--hint=string:x-canonical-private-synchronous:".to_owned();
        hint.append(tag);
        out.push(hint);
    }
    out.push(summary.to_owned());
    out.push(body.to_owned());
    assert(texts(out@) =~= send_options(
        icon@,
        maybe(image),
        tag@,
    ) + seq![summary@, body@]);
    Ok(out)
}

/// A notification says what it was given to say: its summary and its body come last and in this order,
/// its icon is named, and so are its image and its tag where it has them.
pub proof fn a_notification_says_what_it_was_given(
    r: Result<Vec<String>, String>,
    summary: Seq<char>,
    body: Seq<char>,
    icon: Seq<char>,
    image: Option<Seq<char>>,
    tag: Seq<char>,
)
    requires
        is_sent(r, true, summary, body, icon, image, tag),
    ensures
        r is Ok,
        texts(r->Ok_0@).len() >= 4,
        texts(r->Ok_0@)[texts(r->Ok_0@).len() - 2] == summary,
        texts(r->Ok_0@).last() == body,
        texts(r->Ok_0@)[0] == "--app-name=EpochShell"@,
        texts(r->Ok_0@)[1] == "--icon="@ + icon,
        image matches Some(path) ==> texts(r->Ok_0@)[2] == "--hint=string:image-path:"@ + path,
        tag.len() > 0 ==> texts(r->Ok_0@)[texts(r->Ok_0@).len() - 3]
            == "--hint=string:x-canonical-private-synchronous:"@ + tag,
        texts(r->Ok_0@).len() == 4 + (if image is Some {
            1int
        } else {
            0
        }) + (if tag.len() > 0 {
            1int
        } else {
            0
        }),
{
}

} // verus!
