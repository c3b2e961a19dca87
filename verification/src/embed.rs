//! Finding what stands for an embedded URL: the script tag of a gist, or the
//! oEmbed endpoint of the provider whose URL scheme matches.

use crate::glue::{
    optional_texts, push_char, regex_is_match, regex_match, replace, replaced, select_attrs,
    selected_attrs,
};
use crate::pandoc::text_pairs;
use vstd::prelude::*;
use vstd::string::StringExecFns;

verus! {

/// One oEmbed endpoint of a provider, with the URL schemes that it serves.
#[derive(Debug, PartialEq, Eq, Clone)]
pub struct Endpoint {
    pub schemes: Option<Vec<String>>,
    pub url: String,
}

/// One oEmbed provider.
#[derive(Debug, PartialEq, Eq, Clone)]
pub struct Provider {
    pub endpoints: Vec<Endpoint>,
}

/// A URL scheme that does not give a regular expression.
#[derive(Debug, PartialEq, Eq, Clone)]
pub struct InvalidScheme {
    pub scheme: String,
}

/// The expression that recognises a gist.
pub open spec fn gist_pattern() -> Seq<char> {
    "https://gist\\.github\\.com/*"@
}

/// The script tag that embeds the gist at `url`.
pub open spec fn gist_tag(url: Seq<char>) -> Seq<char> {
    "<script src=\""@ + url + ".js\"></script>"@
}

/// The script tag for `url` where `matched` says that it is a gist, and nothing otherwise.
pub fn gist_script(matched: Option<bool>, url: &str) -> (tag: Option<String>)
    ensures
        tag is Some <==> matched == Some(true),
        tag is Some ==> tag->0@ == gist_tag(url@),
{
    match matched {
        Some(true) => {
            let mut tag = "<script src=\"".to_owned();
            tag.append(url);
            tag.append(".js\"></script>");
            Some(tag)
        },
        _ => None,
    }
}

/// The tag for a URL that is embedded without asking a provider: a gist
/// gives a script tag. Nothing else does.
pub fn embed_tag_exceptional(url: &str) -> (tag: Option<String>)
    ensures
        tag is Some <==> regex_match(gist_pattern(), url@) == Some(true),
        tag is Some ==> tag->0@ == gist_tag(url@),
{
    gist_script(regex_is_match("https://gist\\.github\\.com/*", url), url)
}

/// Whether the character has a meaning of its own in a regular expression and is therefore escaped.
pub open spec fn is_special(c: char) -> bool {
    c == '\\' || c == '.' || c == '+' || c == '?' || c == '(' || c == ')' || c == '|' || c == '['
        || c == ']' || c == '{' || c == '}' || c == '^' || c == '$' || c == '#' || c == '&' || c
        == '-' || c == '~'
}

/// What one character of a scheme becomes: a special character is escaped,
/// the wildcard `*` stands for one or more characters, any other character
/// stands for itself.
pub open spec fn quote_char(c: char) -> Seq<char> {
    if is_special(c) {
        seq!['\\', c]
    } else if c == '*' {
        seq!['.', '+']
    } else {
        seq![c]
    }
}

/// The regular expression of a scheme: what its characters become, in order.
pub open spec fn quoted(scheme: Seq<char>) -> Seq<char>
    decreases scheme.len(),
{
    if scheme.len() == 0 {
        seq![]
    } else {
        quoted(scheme.drop_last()) + quote_char(scheme.last())
    }
}

/// The regular expression that matches the URLs of a scheme.
pub fn quote_scheme(scheme: &str) -> (r: String)
    ensures
        r@ == quoted(scheme@),
{
    let mut r = String::new();
    for c in it: scheme.chars()
        invariant
            it.seq() == scheme@,
            r@ == quoted(scheme@.take(it.index() as int)),
    {
        let ghost k = it.index() as int;
        proof {
            assert(scheme@.take(k + 1).drop_last() =~= scheme@.take(k));
            assert(scheme@.take(k + 1).last() == c);
        }
        let ghost before = r@;
        match c {
            '\\' | '.' | '+' | '?' | '(' | ')' | '|' | '[' | ']' | '{' | '}' | '^' | '$' | '#' | '&'
            | '-' | '~' => {
                push_char(&mut r, '\\');
                push_char(&mut r, c);
                assert(r@ =~= before + seq!['\\', c]);
            },
            '*' => {
                push_char(&mut r, '.');
                push_char(&mut r, '+');
                assert(r@ =~= before + seq!['.', '+']);
            },
            _ => {
                push_char(&mut r, c);
                assert(r@ =~= before + seq![c]);
            },
        }
    }
    assert(scheme@.take(scheme@.len() as int) =~= scheme@);
    r
}

/// Whether one of the schemes matches `url`, tried in order up to the first
/// that does; `None` where a scheme that is reached gives no regular expression.
pub open spec fn scheme_hit(schemes: Seq<String>, url: Seq<char>) -> Option<bool>
    decreases schemes.len(),
{
    if schemes.len() == 0 {
        Some(false)
    } else {
        match regex_match(quoted(schemes[0]@), url) {
            None => None,
            Some(true) => Some(true),
            Some(false) => scheme_hit(schemes.drop_first(), url),
        }
    }
}

/// Whether the endpoint serves `url`. An endpoint without schemes serves none.
pub open spec fn endpoint_hit(endpoint: Endpoint, url: Seq<char>) -> Option<bool> {
    match endpoint.schemes {
        Some(schemes) => scheme_hit(schemes@, url),
        None => Some(false),
    }
}

/// The URL of the first endpoint that serves `url`, if any; `None` where a
/// scheme that is reached gives no regular expression.
pub open spec fn find_in_endpoints(endpoints: Seq<Endpoint>, url: Seq<char>) -> Option<Option<Seq<char>>>
    decreases endpoints.len(),
{
    if endpoints.len() == 0 {
        Some(None)
    } else {
        match endpoint_hit(endpoints[0], url) {
            None => None,
            Some(true) => Some(Some(endpoints[0].url@)),
            Some(false) => find_in_endpoints(endpoints.drop_first(), url),
        }
    }
}

/// The URL of the first endpoint of the first provider that serves `url`,
/// if any; `None` where a scheme that is reached gives no regular expression.
pub open spec fn find_in_providers(providers: Seq<Provider>, url: Seq<char>) -> Option<Option<Seq<char>>>
    decreases providers.len(),
{
    if providers.len() == 0 {
        Some(None)
    } else {
        match find_in_endpoints(providers[0].endpoints@, url) {
            None => None,
            Some(Some(found)) => Some(Some(found)),
            Some(None) => find_in_providers(providers.drop_first(), url),
        }
    }
}

/// The outcome of a search, as the specification counts it.
pub open spec fn outcome(r: Result<Option<String>, InvalidScheme>) -> Option<Option<Seq<char>>> {
    match r {
        Ok(Some(found)) => Some(Some(found@)),
        Ok(None) => Some(None),
        Err(_) => None,
    }
}

/// What the answer for one scheme means for the search: a scheme that
/// gives no regular expression is an error, any other matches or does not.
pub fn scheme_verdict(matched: Option<bool>, scheme: &String) -> (r: Result<bool, InvalidScheme>)
    ensures
        match matched {
            Some(hit) => r == Ok::<bool, InvalidScheme>(hit),
            None => r is Err && r->Err_0.scheme@ == scheme@,
        },
{
    match matched {
        Some(hit) => Ok(hit),
        None => Err(InvalidScheme { scheme: scheme.clone() }),
    }
}

fn match_schemes(schemes: &Vec<String>, url: &str) -> (r: Result<bool, InvalidScheme>)
    ensures
        scheme_hit(schemes@, url@) == match r {
            Ok(hit) => Some(hit),
            Err(_) => None,
        },
{
    let mut i: usize = 0;
    assert(schemes@.skip(0) =~= schemes@);
    while i < schemes.len()
        invariant
            i <= schemes.len(),
            scheme_hit(schemes@, url@) == scheme_hit(schemes@.skip(i as int), url@),
        decreases schemes.len() - i,
    {
        proof {
            assert(schemes@.skip(i as int)[0] == schemes@[i as int]);
            assert(schemes@.skip(i as int).drop_first() =~= schemes@.skip(i as int + 1));
        }
        let pattern = quote_scheme(schemes[i].as_str());
        match scheme_verdict(regex_is_match(pattern.as_str(), url), &schemes[i]) {
            Err(e) => {
                return Err(e);
            },
            Ok(true) => {
                return Ok(true);
            },
            Ok(false) => {},
        }
        i += 1;
    }
    Ok(false)
}

fn search_endpoints(endpoints: &Vec<Endpoint>, url: &str) -> (r: Result<Option<String>, InvalidScheme>)
    ensures
        outcome(r) == find_in_endpoints(endpoints@, url@),
{
    let mut i: usize = 0;
    assert(endpoints@.skip(0) =~= endpoints@);
    while i < endpoints.len()
        invariant
            i <= endpoints.len(),
            find_in_endpoints(endpoints@, url@) == find_in_endpoints(endpoints@.skip(i as int), url@),
        decreases endpoints.len() - i,
    {
        proof {
            assert(endpoints@.skip(i as int)[0] == endpoints@[i as int]);
            assert(endpoints@.skip(i as int).drop_first() =~= endpoints@.skip(i as int + 1));
        }
        let hit = match &endpoints[i].schemes {
            Some(schemes) => match_schemes(schemes, url),
            None => Ok(false),
        };
        match hit {
            Err(e) => {
                return Err(e);
            },
            Ok(true) => {
                return Ok(Some(endpoints[i].url.clone()));
            },
            Ok(false) => {},
        }
        i += 1;
    }
    Ok(None)
}

/// The oEmbed endpoint for `url`: that of the first provider, and of its
/// first endpoint, with a scheme that matches. A scheme that gives no
/// regular expression ends the search with an error.
pub fn oembed_by_providers_json(providers: &Vec<Provider>, url: &str) -> (r: Result<Option<String>, InvalidScheme>)
    ensures
        outcome(r) == find_in_providers(providers@, url@),
{
    let mut i: usize = 0;
    assert(providers@.skip(0) =~= providers@);
    while i < providers.len()
        invariant
            i <= providers.len(),
            find_in_providers(providers@, url@) == find_in_providers(providers@.skip(i as int), url@),
        decreases providers.len() - i,
    {
        proof {
            assert(providers@.skip(i as int)[0] == providers@[i as int]);
            assert(providers@.skip(i as int).drop_first() =~= providers@.skip(i as int + 1));
        }
        match search_endpoints(&providers[i].endpoints, url) {
            Err(e) => {
                return Err(e);
            },
            Ok(Some(found)) => {
                return Ok(Some(found));
            },
            Ok(None) => {},
        }
        i += 1;
    }
    Ok(None)
}

// ---------------------------------------------------------------------------
// The order in which the sources of markup are tried

/// What to do next for a URL whose markup is looked for.
#[derive(Debug, PartialEq, Eq, Clone)]
pub enum Next {
    /// The search is over, with the markup or without.
    Done(Option<String>),
    /// Ask the oEmbed endpoint of a provider, at the given address, with
    /// the parameters that `provider_query` gives.
    AskProvider(String),
    /// Fetch the page behind the URL and look in it for an oEmbed link.
    FetchPage,
    /// Ask the oEmbed endpoint that the page names, at the given address.
    AskDiscovered(String),
}

/// The model of a step.
pub enum NextView {
    Done(Option<Seq<char>>),
    AskProvider(Seq<char>),
    FetchPage,
    AskDiscovered(Seq<char>),
}

impl View for Next {
    type V = NextView;

    open spec fn view(&self) -> NextView {
        match self {
            Next::Done(Some(markup)) => NextView::Done(Some(markup@)),
            Next::Done(None) => NextView::Done(None),
            Next::AskProvider(endpoint) => NextView::AskProvider(endpoint@),
            Next::FetchPage => NextView::FetchPage,
            Next::AskDiscovered(endpoint) => NextView::AskDiscovered(endpoint@),
        }
    }
}

/// The address at which a provider's endpoint is asked: the endpoint with
/// its placeholder for the format filled in.
pub open spec fn provider_address(endpoint: Seq<char>) -> Seq<char> {
    replaced(endpoint, "{format}"@, "json"@)
}

/// What a provider's endpoint is asked: the markup for `url`, as JSON, at most 720 wide.
pub open spec fn provider_query_view(url: Seq<char>) -> Seq<(Seq<char>, Seq<char>)> {
    seq![("url"@, url), ("format"@, "json"@), ("maxwidth"@, "720"@)]
}

/// The parameters of the request to a provider's endpoint for `url`.
pub fn provider_query(url: &str) -> (query: Vec<(String, String)>)
    ensures
        text_pairs(query@) == provider_query_view(url@),
{
    let mut query: Vec<(String, String)> = Vec::new();
    query.push(("url".to_owned(), url.to_owned()));
    query.push(("format".to_owned(), "json".to_owned()));
    query.push(("maxwidth".to_owned(), "720".to_owned()));
    assert(text_pairs(query@) =~= provider_query_view(url@));
    query
}

/// The first step for `url`: a gist is done at once, with its tag; a URL
/// that a provider serves goes to that provider's endpoint, asked for JSON;
/// any other goes to the page itself. `None` where a scheme that is reached
/// gives no regular expression.
pub open spec fn first_step(providers: Seq<Provider>, url: Seq<char>) -> Option<NextView> {
    if regex_match(gist_pattern(), url) == Some(true) {
        Some(NextView::Done(Some(gist_tag(url))))
    } else {
        match find_in_providers(providers, url) {
            None => None,
            Some(Some(endpoint)) => Some(NextView::AskProvider(provider_address(endpoint))),
            Some(None) => Some(NextView::FetchPage),
        }
    }
}

/// The first step of the search for the markup of `url`.
pub fn begin(providers: &Vec<Provider>, url: &str) -> (r: Result<Next, InvalidScheme>)
    ensures
        first_step(providers@, url@) == match r {
            Ok(next) => Some(next@),
            Err(_) => None,
        },
{
    match embed_tag_exceptional(url) {
        Some(tag) => Ok(Next::Done(Some(tag))),
        None => match oembed_by_providers_json(providers, url) {
            Err(e) => Err(e),
            Ok(Some(endpoint)) => {
                proof {
                    reveal_strlit("{format}");
                }
                Ok(Next::AskProvider(replace(endpoint.as_str(), "{format}", "json")))
            },
            Ok(None) => Ok(Next::FetchPage),
        },
    }
}

/// The selector of the links by which a page names its oEmbed endpoint.
pub open spec fn oembed_link_selector() -> Seq<char> {
    "head > link[type=\"application/json+oembed\"]"@
}

/// The last of the links; `None` where there is no link, or where the last has no address.
pub open spec fn last_of(links: Seq<Option<Seq<char>>>) -> Option<Seq<char>> {
    if links.len() == 0 {
        None
    } else {
        links.last()
    }
}

/// The endpoint among the addresses of a page's oEmbed links, in
/// the order of the page: the last link counts.
pub fn last_link(links: Vec<Option<String>>) -> (r: Option<String>)
    ensures
        last_of(optional_texts(links@)) == match r {
            Some(endpoint) => Some(endpoint@),
            None => None,
        },
{
    let mut links = links;
    match links.pop() {
        Some(last) => last,
        None => None,
    }
}

/// The oEmbed endpoint that the page `html` names, if it names one.
pub open spec fn discovered(html: Seq<char>) -> Option<Seq<char>> {
    match selected_attrs(html, oembed_link_selector(), "href"@) {
        Some(links) => last_of(links),
        None => None,
    }
}

/// The oEmbed endpoint that a page names: the address of the last oEmbed link in its head.
pub fn discovered_endpoint(html: &str) -> (r: Option<String>)
    ensures
        discovered(html@) == match r {
            Some(endpoint) => Some(endpoint@),
            None => None,
        },
{
    match select_attrs(html, "head > link[type=\"application/json+oembed\"]", "href") {
        Some(links) => last_link(links),
        None => None,
    }
}

/// The step after a provider's endpoint was asked: its markup ends the
/// search; without an answer the page itself is tried.
pub fn after_provider(answer: Option<String>) -> (next: Next)
    ensures
        next@ == match answer {
            Some(markup) => NextView::Done(Some(markup@)),
            None => NextView::FetchPage,
        },
{
    match answer {
        Some(markup) => Next::Done(Some(markup)),
        None => Next::FetchPage,
    }
}

/// The step after the page was fetched: the endpoint that it names is
/// asked; where it names none, or could not be fetched, the search ends
/// without markup.
pub fn after_page(discovered: Option<String>) -> (next: Next)
    ensures
        next@ == match discovered {
            Some(endpoint) => NextView::AskDiscovered(endpoint@),
            None => NextView::Done(None),
        },
{
    match discovered {
        Some(endpoint) => Next::AskDiscovered(endpoint),
        None => Next::Done(None),
    }
}

/// The step after the discovered endpoint was asked: the search ends, with
/// its markup or without.
pub fn after_discovered(answer: Option<String>) -> (next: Next)
    ensures
        next@ == NextView::Done(
            match answer {
                Some(markup) => Some(markup@),
                None => None,
            },
        ),
{
    Next::Done(answer)
}

} // verus!
