use vstd::prelude::*;
use vstd::string::*;

verus! {

/// What `str::to_lowercase` makes of a text: its Unicode lowercase mapping.
pub uninterp spec fn lowercase(s: Seq<char>) -> Seq<char>;

/// Calls `str::to_lowercase`. Claimed: the result is `lowercase` of the
/// text, a function of the text alone (std applies the Unicode lowercase
/// mapping of its tables, a capital sigma depending on the characters
/// around it).
#[verifier::external_body]
fn to_lowercase(s: &str) -> (lower: String)
    ensures
        lower@ == lowercase(s@),
{
    s.to_lowercase()
}

/// `needle` occurs in `haystack` starting at `at`.
pub open spec fn occurs_at(haystack: Seq<char>, needle: Seq<char>, at: int) -> bool {
    0 <= at && at + needle.len() <= haystack.len() && haystack.subrange(at, at + needle.len())
        == needle
}

/// `needle` occurs somewhere in `haystack`.
pub open spec fn contains_chars(haystack: Seq<char>, needle: Seq<char>) -> bool {
    exists|at: int| occurs_at(haystack, needle, at)
}

/// A window title matches a blacklist term when the lowercased term occurs
/// in the lowercased title.
pub open spec fn title_matches(title: Seq<char>, term: Seq<char>) -> bool {
    contains_chars(lowercase(title), lowercase(term))
}

fn chars_of(s: &str) -> (chars: Vec<char>)
    ensures
        chars@ == s@,
{
    let n = s.unicode_len();
    let mut chars: Vec<char> = Vec::new();
    for i in 0..n
        invariant
            n == s@.len(),
            chars@ =~= s@.take(i as int),
    {
        chars.push(s.get_char(i));
    }
    assert(chars@ =~= s@);
    chars
}

fn occurs(haystack: &Vec<char>, needle: &Vec<char>) -> (found: bool)
    ensures
        found == contains_chars(haystack@, needle@),
{
    let n = haystack.len();
    let m = needle.len();
    if m > n {
        assert forall|at: int| !occurs_at(haystack@, needle@, at) by {}
        return false;
    }
    let mut i: usize = 0;
    while i <= n - m
        invariant
            n == haystack@.len(),
            m == needle@.len(),
            m <= n,
            i <= n - m + 1,
            forall|at: int| 0 <= at < i ==> !occurs_at(haystack@, needle@, at),
        decreases n - m + 1 - i,
    {
        let mut j: usize = 0;
        while j < m && haystack[i + j] == needle[j]
            invariant
                n == haystack@.len(),
                m == needle@.len(),
                i + m <= n,
                j <= m,
                forall|k: int| 0 <= k < j ==> haystack@[i + k] == needle@[k],
            decreases m - j,
        {
            j = j + 1;
        }
        if j == m {
            assert(haystack@.subrange(i as int, i + m) =~= needle@);
            assert(occurs_at(haystack@, needle@, i as int));
            return true;
        }
        assert(!occurs_at(haystack@, needle@, i as int)) by {
            if haystack@.subrange(i as int, i + m) == needle@ {
                assert(haystack@.subrange(i as int, i + m)[j as int] == haystack@[i + j]);
            }
        }
        i = i + 1;
    }
    assert forall|at: int| !occurs_at(haystack@, needle@, at) by {
        if 0 <= at && at < i {
        }
    }
    false
}

/// The first blacklist term that the window title matches (ignoring case),
/// if any: the capture of that window is skipped.
pub fn blacklist_match(title: &str, blacklist: &Vec<String>) -> (found: Option<usize>)
    ensures
        match found {
            Some(i) => {
                &&& i < blacklist@.len()
                &&& title_matches(title@, blacklist@[i as int]@)
                &&& forall|j: int| 0 <= j < i ==> !title_matches(title@, #[trigger] blacklist@[j]@)
            },
            None => forall|j: int|
                0 <= j < blacklist@.len() ==> !title_matches(title@, #[trigger] blacklist@[j]@),
        },
{
    let lower_title = to_lowercase(title);
    let hay = chars_of(lower_title.as_str());
    let n = blacklist.len();
    for i in 0..n
        invariant
            n == blacklist@.len(),
            hay@ == lowercase(title@),
            forall|j: int| 0 <= j < i ==> !title_matches(title@, #[trigger] blacklist@[j]@),
    {
        let lower_term = to_lowercase(blacklist[i].as_str());
        let needle = chars_of(lower_term.as_str());
        if occurs(&hay, &needle) {
            return Some(i);
        }
    }
    None
}

/// Window-title terms of private browsing windows and password managers,
/// whose windows are never recorded.
pub fn privacy_blacklist() -> (terms: Vec<String>)
    ensures
        terms@.len() == 13,
        terms@[0]@ == "Incognito"@,
        terms@[1]@ == "Tor Browser"@,
        terms@[2]@ == "Bitwarden"@,
        terms@[3]@ == "1Password"@,
        terms@[4]@ == "KeePass"@,
        terms@[5]@ == "LastPass"@,
        terms@[6]@ == "InPrivate"@,
        terms@[7]@ == "Private Browsing"@,
        terms@[8]@ == "Private Window"@,
        terms@[9]@ == "New Incognito Window"@,
        terms@[10]@ == "Incognito Window"@,
        terms@[11]@ == "Private Tab"@,
        terms@[12]@ == "Private Mode"@,
{
    let mut terms: Vec<String> = Vec::new();
    terms.push(String::from_str("Incognito"));
    terms.push(String::from_str("Tor Browser"));
    terms.push(String::from_str("Bitwarden"));
    terms.push(String::from_str("1Password"));
    terms.push(String::from_str("KeePass"));
    terms.push(String::from_str("LastPass"));
    terms.push(String::from_str("InPrivate"));
    terms.push(String::from_str("Private Browsing"));
    terms.push(String::from_str("Private Window"));
    terms.push(String::from_str("New Incognito Window"));
    terms.push(String::from_str("Incognito Window"));
    terms.push(String::from_str("Private Tab"));
    terms.push(String::from_str("Private Mode"));
    terms
}

} // verus!
