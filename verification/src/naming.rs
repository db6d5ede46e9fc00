//! Names and places of downloaded images.
//!
//! A download is saved in the download directory under a stamp of the
//! local time, a `_`, and the file name that the path of its address ends
//! in. Query and fragment of the address are no part of that name.

use crate::paths::{
    chars_of, find_last_segment, find_slash, first_slash, is_single_segment, join, joined,
    last_segment, lemma_first_slash_is_at, lemma_first_slash_is_single, lemma_first_slash_skips,
    lemma_first_slash_within, lemma_last_segment_extends, lemma_last_segment_is_single,
};
use vstd::prelude::*;

verus! {

/// File name given to a download whose address names none.
pub const DEFAULT_FILE_NAME: &'static str = "wallpaper.webp";

/// The pattern that stamps are formatted with: year, month, day, hour,
/// minute and second, each zero-padded, with nothing in between.
pub const STAMP_PATTERN: &'static str = "%Y%m%d%H%M%S";

/// Number of characters in the stamp of a moment in a four-digit year.
pub const STAMP_DIGITS: usize = 14;

/// `c` ends the path of an address: `?` opens the query and `#` the
/// fragment.
pub open spec fn is_mark(c: char) -> bool {
    c == '?' || c == '#'
}

/// `s` holds neither `?` nor `#`.
pub open spec fn is_unmarked(s: Seq<char>) -> bool {
    forall|i: int| 0 <= i < s.len() ==> !is_mark(#[trigger] s[i])
}

/// Position of the first `?` or `#` in `s`, or the length of `s` if it
/// holds neither.
pub open spec fn first_mark(s: Seq<char>) -> int
    decreases s.len(),
{
    if s.len() == 0 || is_mark(s.first()) {
        0
    } else {
        1 + first_mark(s.drop_first())
    }
}

/// The address without its query and its fragment: what stands before the
/// first `?` or `#`.
pub open spec fn without_query(url: Seq<char>) -> Seq<char> {
    url.take(first_mark(url))
}

/// The text names a host: its first `/` stands in `://`.
pub open spec fn has_host(plain: Seq<char>) -> bool {
    let at = first_slash(plain);
    0 < at && at + 1 < plain.len() && plain[at - 1] == ':' && plain[at + 1] == '/'
}

/// The path of an address. Query and fragment are no part of it: the path
/// ends before the first `?` or `#`. Of what stands before that, the path
/// is what follows the host, from the next `/` on, or all of it where the
/// address names no host.
pub open spec fn path_of(url: Seq<char>) -> Seq<char> {
    let plain = without_query(url);
    if has_host(plain) {
        let behind = plain.skip(first_slash(plain) + 2);
        behind.skip(first_slash(behind))
    } else {
        plain
    }
}

/// The file name that an image found at `url` is saved under: the last
/// segment of the address's path, or the default name where that segment
/// is empty or the address has no path.
pub open spec fn file_name_of(url: Seq<char>) -> Seq<char> {
    let name = last_segment(path_of(url));
    if name.len() == 0 {
        DEFAULT_FILE_NAME@
    } else {
        name
    }
}

/// The first `?` or `#` stands where neither comes before and one of them,
/// or the end of the text, is found.
pub proof fn lemma_first_mark_is_at(s: Seq<char>, at: int)
    requires
        0 <= at <= s.len(),
        is_unmarked(s.take(at)),
        at == s.len() || is_mark(s[at]),
    ensures
        first_mark(s) == at,
    decreases at,
{
    if at > 0 {
        assert(!is_mark(s.take(at)[0]));
        let rest = s.drop_first();
        assert forall|i: int| 0 <= i < at - 1 implies !is_mark(#[trigger] rest.take(at - 1)[i]) by {
            assert(!is_mark(s.take(at)[i + 1]));
        }
        lemma_first_mark_is_at(rest, at - 1);
    }
}

/// Neither `?` nor `#` comes before the first of them.
pub proof fn lemma_without_query_is_unmarked(s: Seq<char>)
    ensures
        0 <= first_mark(s) <= s.len(),
        is_unmarked(without_query(s)),
    decreases s.len(),
{
    if s.len() > 0 && !is_mark(s.first()) {
        let rest = s.drop_first();
        lemma_without_query_is_unmarked(rest);
        let at = first_mark(s);
        assert forall|i: int| 0 <= i < at implies !is_mark(#[trigger] s.take(at)[i]) by {
            if i > 0 {
                assert(rest.take(at - 1)[i - 1] == s.take(at)[i]);
            }
        }
    }
}

/// Finds the first `?` or `#`: its position, or the length of the text if
/// there is none.
fn find_mark(chars: &Vec<char>) -> (at: usize)
    ensures
        at <= chars@.len(),
        at == first_mark(chars@),
{
    let mut at: usize = 0;
    while at < chars.len() && chars[at] != '?' && chars[at] != '#'
        invariant
            at <= chars@.len(),
            forall|k: int| 0 <= k < at ==> !is_mark(chars@[k]),
        decreases chars@.len() - at,
    {
        at = at + 1;
    }
    proof {
        let before = chars@.take(at as int);
        assert forall|i: int| 0 <= i < at implies !is_mark(#[trigger] before[i]) by {
            assert(before[i] == chars@[i]);
        }
        lemma_first_mark_is_at(chars@, at as int);
    }
    at
}

/// Finds where the path begins in a text that holds no query or fragment.
fn find_path(plain: &Vec<char>) -> (start: usize)
    ensures
        start <= plain@.len(),
        plain@.skip(start as int) == if has_host(plain@) {
            let behind = plain@.skip(first_slash(plain@) + 2);
            behind.skip(first_slash(behind))
        } else {
            plain@
        },
{
    let n = plain.len();
    let at = find_slash(plain, 0);
    assert(plain@.skip(0) == plain@);
    if 0 < at && at < n - 1 && plain[at - 1] == ':' && plain[at + 1] == '/' {
        let start = find_slash(plain, at + 2);
        assert(plain@.skip(at + 2).skip(start - (at + 2)) == plain@.skip(start as int));
        start
    } else {
        0
    }
}

/// Derives the file name of a download from the address it was found at.
pub fn file_name_from_url(url: &str) -> (name: String)
    ensures
        name@ == file_name_of(url@),
{
    let mut chars = chars_of(url);
    let end = find_mark(&chars);
    chars.truncate(end);
    assert(chars@ == without_query(url@));
    let path = find_path(&chars);
    let start = find_last_segment(&chars, path);
    if start == end {
        String::from_str(DEFAULT_FILE_NAME)
    } else {
        assert(url@.subrange(start as int, end as int) == chars@.skip(start as int));
        String::from_str(url.substring_char(start, end))
    }
}

/// `c` is one of the ten decimal digits.
pub open spec fn is_digit(c: char) -> bool {
    '0' <= c && c <= '9'
}

/// Every character of `s` is a decimal digit.
pub open spec fn all_digits(s: Seq<char>) -> bool {
    forall|i: int| 0 <= i < s.len() ==> is_digit(#[trigger] s[i])
}

/// `s` has the shape of a stamp: fourteen decimal digits, or, for a moment
/// outside the years 0 to 9999, a sign followed by more digits than that.
pub open spec fn is_stamp(s: Seq<char>) -> bool {
    ||| s.len() == STAMP_DIGITS && all_digits(s)
    ||| s.len() > STAMP_DIGITS && (s[0] == '+' || s[0] == '-') && all_digits(s.skip(1))
}

/// The current local time, formatted by `pattern`.
///
/// Reads the clock with `std::time::SystemTime::now`, turns the reading
/// into a `chrono::DateTime<chrono::Local>` with `From`, which also takes
/// a reading from before 1970, formats it with `chrono::DateTime::format`
/// and renders the outcome with `to_string`. The clock and the machine's
/// time zone decide the digits, so the contract only fixes the shape that
/// the stamp pattern gives every moment: the year in four digits, or,
/// outside the years 0 to 9999, with a sign and four digits or more,
/// followed by two digits each for month, day, hour, minute and second.
/// Other patterns are left out because rendering fails on a malformed one.
///
/// Two things are not ruled out, because no call into `chrono::Local`
/// avoids them: `chrono` panics where the clock reads a moment outside the
/// years that it can hold, some 262,000 either way, and where the system
/// gives it no time-zone data for the moment.
#[verifier::external_body]
fn local_time_text(pattern: &str) -> (text: String)
    requires
        pattern@ == STAMP_PATTERN@,
    ensures
        is_stamp(text@),
{
    let now = chrono::DateTime::<chrono::Local>::from(std::time::SystemTime::now());
    now.format(pattern).to_string()
}

/// A stamp of the current local time, to the second.
pub fn stamp_now() -> (stamp: String)
    ensures
        is_stamp(stamp@),
{
    local_time_text(STAMP_PATTERN)
}

/// The name of a saved image: the stamp, a `_`, then the file name.
pub open spec fn saved_name(stamp: Seq<char>, file_name: Seq<char>) -> Seq<char> {
    stamp + seq!['_'] + file_name
}

/// The place of a saved image: its saved name inside the download directory.
pub open spec fn saved_path(dir: Seq<char>, stamp: Seq<char>, file_name: Seq<char>) -> Seq<char> {
    joined(dir, saved_name(stamp, file_name))
}

/// Builds the path that an image is saved at.
pub fn wallpaper_path(download_dir: &str, stamp: &str, file_name: &str) -> (path: String)
    ensures
        path@ == saved_path(download_dir@, stamp@, file_name@),
{
    let mut name = String::from_str(stamp);
    name.append("_");
    name.append(file_name);
    proof {
        reveal_strlit("_");
        assert("_"@ =~= seq!['_']);
    }
    join(download_dir, name.as_str())
}

/// Chooses, at the current local time, the path for the image found at
/// `final_url`.
pub fn new_wallpaper_path(download_dir: &str, final_url: &str) -> (path: String)
    ensures
        exists|stamp: Seq<char>|
            is_stamp(stamp) && path@ == #[trigger] saved_path(
                download_dir@,
                stamp,
                file_name_of(final_url@),
            ),
{
    let stamp = stamp_now();
    let file_name = file_name_from_url(final_url);
    wallpaper_path(download_dir, stamp.as_str(), file_name.as_str())
}

/// The address made of a scheme, `://`, a host and what follows the host.
pub open spec fn address(scheme: Seq<char>, host: Seq<char>, rest: Seq<char>) -> Seq<char> {
    scheme + seq![':', '/', '/'] + host + rest
}

/// `tail` is a query, a fragment, both, or nothing: it is empty or begins
/// with `?` or `#`.
pub open spec fn is_query_or_fragment(tail: Seq<char>) -> bool {
    tail.len() == 0 || is_mark(tail[0])
}

/// A query or fragment behind a text without `?` and `#` is cut off again.
pub proof fn lemma_without_query_cuts(plain: Seq<char>, tail: Seq<char>)
    requires
        is_unmarked(plain),
        is_query_or_fragment(tail),
    ensures
        without_query(plain + tail) == plain,
{
    let whole = plain + tail;
    assert(whole.take(plain.len() as int) =~= plain);
    if tail.len() > 0 {
        assert(whole[plain.len() as int] == tail[0]);
    }
    lemma_first_mark_is_at(whole, plain.len() as int);
}

/// The path of an address does not depend on its query and fragment.
pub proof fn lemma_path_ignores_query(plain: Seq<char>, tail: Seq<char>)
    requires
        is_unmarked(plain),
        is_query_or_fragment(tail),
    ensures
        path_of(plain + tail) == path_of(plain),
        file_name_of(plain + tail) == file_name_of(plain),
{
    lemma_without_query_cuts(plain, tail);
    lemma_without_query_cuts(plain, Seq::empty());
    assert(plain + Seq::<char>::empty() =~= plain);
}

/// In a text with a host and without query and fragment, the path is what
/// follows the host from its first `/` on.
proof fn lemma_path_of_address(scheme: Seq<char>, host: Seq<char>, rest: Seq<char>)
    requires
        is_single_segment(scheme),
        is_single_segment(host),
        is_unmarked(address(scheme, host, rest)),
    ensures
        path_of(address(scheme, host, rest)) == rest.skip(first_slash(rest)),
{
    let url = address(scheme, host, rest);
    lemma_without_query_cuts(url, Seq::empty());
    assert(url + Seq::<char>::empty() =~= url);
    let at = scheme.len() as int + 1;
    assert(url.take(at) =~= scheme.push(':'));
    lemma_first_slash_is_at(url, at);
    assert(has_host(url));
    let behind = url.skip(at + 2);
    assert(behind =~= host + rest);
    lemma_first_slash_skips(host, rest);
    assert(behind.skip(host.len() + first_slash(rest)) =~= rest.skip(first_slash(rest)));
}

/// An address made of unmarked parts is unmarked.
proof fn lemma_address_is_unmarked(scheme: Seq<char>, host: Seq<char>, rest: Seq<char>)
    requires
        is_unmarked(scheme),
        is_unmarked(host),
        is_unmarked(rest),
    ensures
        is_unmarked(address(scheme, host, rest)),
{
    let url = address(scheme, host, rest);
    assert forall|i: int| 0 <= i < url.len() implies !is_mark(#[trigger] url[i]) by {
        if i < scheme.len() {
            assert(url[i] == scheme[i]);
        } else if i < scheme.len() + 3 {
        } else if i < scheme.len() + 3 + host.len() {
            assert(url[i] == host[i - scheme.len() - 3]);
        } else {
            assert(url[i] == rest[i - scheme.len() - 3 - host.len()]);
        }
    }
}

/// An address whose path ends in a `/` and a name is saved under that
/// name, whatever query or fragment follows the path. An address whose
/// path ends in a `/`, or that has a host and no path, is saved under the
/// default name.
pub proof fn law_file_name_from_address(
    scheme: Seq<char>,
    host: Seq<char>,
    dir: Seq<char>,
    name: Seq<char>,
    tail: Seq<char>,
)
    requires
        is_single_segment(scheme) && is_unmarked(scheme),
        is_single_segment(host) && is_unmarked(host),
        is_unmarked(dir),
        is_single_segment(name) && is_unmarked(name),
        is_query_or_fragment(tail),
    ensures
        name.len() > 0 ==> file_name_of(address(scheme, host, dir + seq!['/'] + name) + tail)
            == name,
        file_name_of(address(scheme, host, dir + seq!['/']) + tail) == DEFAULT_FILE_NAME@,
        file_name_of(address(scheme, host, Seq::empty()) + tail) == DEFAULT_FILE_NAME@,
{
    let folder = dir + seq!['/'];
    let rest = folder + name;
    assert(rest =~= dir + seq!['/'] + name);
    let none = Seq::<char>::empty();
    assert(is_unmarked(folder));
    assert(is_unmarked(rest));
    lemma_address_is_unmarked(scheme, host, folder);
    lemma_address_is_unmarked(scheme, host, rest);
    lemma_address_is_unmarked(scheme, host, none);
    lemma_path_ignores_query(address(scheme, host, folder), tail);
    lemma_path_ignores_query(address(scheme, host, rest), tail);
    lemma_path_ignores_query(address(scheme, host, none), tail);

    let at = first_slash(folder);
    lemma_first_slash_is_single(folder);
    if at == folder.len() {
        assert(folder.take(at)[folder.len() - 1] == '/');
    }
    let head = folder.skip(at);
    assert(head.last() == '/');

    lemma_path_of_address(scheme, host, folder);
    assert(last_segment(head).len() == 0);

    lemma_first_slash_within(folder, name);
    lemma_path_of_address(scheme, host, rest);
    assert(rest.skip(at) =~= head + name);
    lemma_last_segment_extends(head, name);
    assert(last_segment(head) + name =~= name);

    lemma_path_of_address(scheme, host, none);
    assert(none.skip(0) =~= none);
}

/// An address without a host is saved under what follows the last `/`
/// before its query and fragment, or under all that stands before them if
/// that holds no `/`; if that is empty, under the default name.
pub proof fn law_file_name_without_host(url: Seq<char>)
    requires
        !has_host(without_query(url)),
    ensures
        file_name_of(url) == if last_segment(without_query(url)).len() == 0 {
            DEFAULT_FILE_NAME@
        } else {
            last_segment(without_query(url))
        },
{
}

/// The last segment of a text without `?` and `#` holds neither.
proof fn lemma_last_segment_is_unmarked(s: Seq<char>)
    requires
        is_unmarked(s),
    ensures
        is_unmarked(last_segment(s)),
    decreases s.len(),
{
    if s.len() > 0 && s.last() != '/' {
        assert(is_unmarked(s.drop_last())) by {
            assert forall|i: int| 0 <= i < s.drop_last().len() implies !is_mark(
                #[trigger] s.drop_last()[i],
            ) by {
                assert(s.drop_last()[i] == s[i]);
            }
        }
        lemma_last_segment_is_unmarked(s.drop_last());
        assert(!is_mark(s[s.len() - 1]));
    }
}

/// The file name of a download holds no `/`, no `?` and no `#`, and is
/// never empty.
pub proof fn law_file_name_is_plain(url: Seq<char>)
    ensures
        is_single_segment(file_name_of(url)),
        is_unmarked(file_name_of(url)),
        file_name_of(url).len() > 0,
{
    reveal_strlit("wallpaper.webp");
    let plain = without_query(url);
    let path = path_of(url);
    lemma_without_query_is_unmarked(url);
    assert(is_unmarked(path)) by {
        if has_host(plain) {
            let from = first_slash(plain) + 2;
            let behind = plain.skip(from);
            lemma_first_slash_is_single(behind);
            let more = first_slash(behind);
            assert forall|i: int| 0 <= i < path.len() implies !is_mark(#[trigger] path[i]) by {
                assert(path[i] == plain[from + more + i]);
            }
        }
    }
    lemma_last_segment_is_unmarked(path);
    lemma_last_segment_is_single(path);
}

/// A saved image lies directly in the download directory, under a name
/// that ends with the file name its address gave: the last segment of its
/// path is the stamp, a `_`, and that file name.
pub proof fn law_saved_file_keeps_name(dir: Seq<char>, stamp: Seq<char>, url: Seq<char>)
    requires
        is_stamp(stamp),
    ensures
        last_segment(saved_path(dir, stamp, file_name_of(url))) == stamp + seq!['_']
            + file_name_of(url),
{
    let name = file_name_of(url);
    let saved = saved_name(stamp, name);
    reveal_strlit("wallpaper.webp");
    lemma_last_segment_is_single(path_of(url));
    assert(is_single_segment(name));
    assert(is_single_segment(saved)) by {
        assert forall|i: int| 0 <= i < saved.len() implies #[trigger] saved[i] != '/' by {
            if i < stamp.len() {
                assert(saved[i] == stamp[i]);
                if i > 0 {
                    assert(stamp[i] == stamp.skip(1)[i - 1]);
                }
            } else if i == stamp.len() {
                assert(saved[i] == '_');
            } else {
                assert(saved[i] == name[i - stamp.len() - 1]);
            }
        }
    }
    let head = dir + seq!['/'];
    assert(head.last() == '/');
    lemma_last_segment_extends(head, saved);
    assert(last_segment(head) + saved =~= saved);
}

} // verus!
