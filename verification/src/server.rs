//! How the single-table HTTP server dispatches a request, from its method
//! and URL, before any table is touched.
use vstd::prelude::*;
use crate::text::{chars_of, same_text, substring};

verus! {

/// The handler that a request goes to, with the URL path where the
/// handler needs it.
#[derive(Debug, PartialEq, Eq)]
pub enum Route {
    Options,
    ChangeFeed,
    Get { path: String },
    Explain,
    Query { path: String },
    Transaction,
    Post { path: String },
    Update { path: String, replace: bool },
    Delete { path: String },
    MethodNotAllowed,
}

/// A route with its texts as character sequences.
pub enum RouteView {
    Options,
    ChangeFeed,
    Get { path: Seq<char> },
    Explain,
    Query { path: Seq<char> },
    Transaction,
    Post { path: Seq<char> },
    Update { path: Seq<char>, replace: bool },
    Delete { path: Seq<char> },
    MethodNotAllowed,
}

impl View for Route {
    type V = RouteView;

    open spec fn view(&self) -> RouteView {
        match self {
            Route::Options => RouteView::Options,
            Route::ChangeFeed => RouteView::ChangeFeed,
            Route::Get { path } => RouteView::Get { path: path@ },
            Route::Explain => RouteView::Explain,
            Route::Query { path } => RouteView::Query { path: path@ },
            Route::Transaction => RouteView::Transaction,
            Route::Post { path } => RouteView::Post { path: path@ },
            Route::Update { path, replace } => RouteView::Update { path: path@, replace: *replace },
            Route::Delete { path } => RouteView::Delete { path: path@ },
            Route::MethodNotAllowed => RouteView::MethodNotAllowed,
        }
    }
}

/// The first '?' of a URL, where its query starts.
pub open spec fn query_start(url: Seq<char>) -> Option<int> {
    if exists|k: int| 0 <= k < url.len() && url[k] == '?' {
        Some(choose|k: int| 0 <= k < url.len() && url[k] == '?' && forall|j: int| 0 <= j < k ==> url[j] != '?')
    } else {
        None
    }
}

/// The path of a URL: the text before the first '?'.
pub open spec fn url_path(url: Seq<char>) -> Seq<char> {
    match query_start(url) {
        Some(k) => url.subrange(0, k),
        None => url,
    }
}

/// The route of a request with method `method` for `url`.
pub open spec fn route_of(method: Seq<char>, url: Seq<char>) -> RouteView {
    let path = url_path(url);
    if method == "OPTIONS"@ {
        RouteView::Options
    } else if method == "GET"@ || method == "HEAD"@ {
        if path == "/cdc"@ {
            RouteView::ChangeFeed
        } else {
            RouteView::Get { path }
        }
    } else if method == "QUERY"@ {
        if path == "/explain"@ {
            RouteView::Explain
        } else {
            RouteView::Query { path }
        }
    } else if method == "POST"@ {
        if path == "/transaction"@ {
            RouteView::Transaction
        } else {
            RouteView::Post { path }
        }
    } else if method == "PUT"@ {
        RouteView::Update { path, replace: true }
    } else if method == "PATCH"@ {
        RouteView::Update { path, replace: false }
    } else if method == "DELETE"@ {
        RouteView::Delete { path }
    } else {
        RouteView::MethodNotAllowed
    }
}

/// The path of a URL.
pub fn path_of(url: &str) -> (r: String)
    ensures
        r@ == url_path(url@),
{
    let cs = chars_of(url);
    let mut k: usize = 0;
    while k < cs.len() && cs[k] != '?'
        invariant
            cs@ == url@,
            k <= cs@.len(),
            forall|j: int| 0 <= j < k ==> url@[j] != '?',
        decreases cs.len() - k,
    {
        k += 1;
    }
    if k < cs.len() {
        proof {
            let m = choose|m: int| 0 <= m < url@.len() && url@[m] == '?' && forall|j: int| 0 <= j < m ==> url@[j] != '?';
            assert(url@[k as int] == '?');
            if m < k {
                assert(url@[m] != '?');
            } else if m > k {
                assert(url@[k as int] != '?');
            }
        }
        substring(url, 0, k)
    } else {
        assert(url@.subrange(0, url@.len() as int) =~= url@);
        substring(url, 0, cs.len())
    }
}

/// Decides the handler of a request from its method and URL.
pub fn route(method: &str, url: &str) -> (r: Route)
    ensures
        r@ == route_of(method@, url@),
{
    let path = path_of(url);
    if same_text(method, "OPTIONS") {
        Route::Options
    } else if same_text(method, "GET") || same_text(method, "HEAD") {
        if same_text(&path, "/cdc") {
            Route::ChangeFeed
        } else {
            Route::Get { path }
        }
    } else if same_text(method, "QUERY") {
        if same_text(&path, "/explain") {
            Route::Explain
        } else {
            Route::Query { path }
        }
    } else if same_text(method, "POST") {
        if same_text(&path, "/transaction") {
            Route::Transaction
        } else {
            Route::Post { path }
        }
    } else if same_text(method, "PUT") {
        Route::Update { path, replace: true }
    } else if same_text(method, "PATCH") {
        Route::Update { path, replace: false }
    } else if same_text(method, "DELETE") {
        Route::Delete { path }
    } else {
        Route::MethodNotAllowed
    }
}

/// Where a record query goes: the record stream, the records collection,
/// or nowhere.
#[derive(Debug, Clone, Copy, PartialEq, Eq, Structural)]
pub enum QueryTarget {
    Stream,
    Records,
    NotFound,
}

/// Which query a `QUERY` path asks for.
pub fn query_target(path: &str) -> (r: QueryTarget)
    ensures
        path@ == "/records/stream"@ ==> r == QueryTarget::Stream,
        path@ != "/records/stream"@ && path@ == "/records"@ ==> r == QueryTarget::Records,
        path@ != "/records/stream"@ && path@ != "/records"@ ==> r == QueryTarget::NotFound,
{
    if same_text(path, "/records/stream") {
        QueryTarget::Stream
    } else if same_text(path, "/records") {
        QueryTarget::Records
    } else {
        QueryTarget::NotFound
    }
}

/// The path that routing reads from a URL is the URL up to its first '?':
/// it holds no '?', and the rest of the URL is empty or starts with '?'.
pub proof fn law_url_path_stops_at_the_query(url: Seq<char>)
    ensures
        url_path(url).len() <= url.len(),
        url_path(url) == url.subrange(0, url_path(url).len() as int),
        forall|j: int| 0 <= j < url_path(url).len() ==> url_path(url)[j] != '?',
        url_path(url).len() < url.len() ==> url[url_path(url).len() as int] == '?',
{
    if exists|k: int| 0 <= k < url.len() && url[k] == '?' {
        let k0 = choose|k: int| 0 <= k < url.len() && url[k] == '?';
        lemma_first_query(url, k0);
        let w = choose|k: int| 0 <= k < url.len() && url[k] == '?' && forall|j: int| 0 <= j < k ==> url[j] != '?';
        assert(query_start(url) == Some(w));
        assert(url_path(url) =~= url.subrange(0, w));
    } else {
        assert(url.subrange(0, url.len() as int) =~= url);
    }
}

/// Where a URL holds a '?', it holds a first one.
proof fn lemma_first_query(url: Seq<char>, k: int)
    requires
        0 <= k < url.len(),
        url[k] == '?',
    ensures
        exists|w: int| 0 <= w < url.len() && url[w] == '?' && forall|j: int| 0 <= j < w ==> url[j] != '?',
    decreases k,
{
    if exists|j: int| 0 <= j < k && url[j] == '?' {
        let j = choose|j: int| 0 <= j < k && url[j] == '?';
        lemma_first_query(url, j);
    } else {
        assert(forall|j: int| 0 <= j < k ==> url[j] != '?');
    }
}

/// A POST request goes to the transaction handler exactly when its path is
/// "/transaction"; any other POST inserts a record at its path.
pub proof fn law_post_routes_by_path(url: Seq<char>)
    ensures
        (route_of("POST"@, url) == RouteView::Transaction) <==> url_path(url) == "/transaction"@,
        url_path(url) != "/transaction"@ ==> route_of("POST"@, url) == (RouteView::Post { path: url_path(url) }),
{
    reveal_strlit("POST");
    reveal_strlit("OPTIONS");
    reveal_strlit("GET");
    reveal_strlit("HEAD");
    reveal_strlit("QUERY");
    assert("POST"@ != "OPTIONS"@) by {
        assert("POST"@.len() != "OPTIONS"@.len());
    }
    assert("POST"@ != "GET"@) by {
        assert("POST"@.len() != "GET"@.len());
    }
    assert("POST"@ != "QUERY"@) by {
        assert("POST"@.len() != "QUERY"@.len());
    }
    assert("POST"@ != "HEAD"@) by {
        assert("POST"@[0] != "HEAD"@[0]);
    }
}

/// Only a POST to "/transaction" reaches the transaction handler, and a
/// route that carries a path carries the URL's path.
pub proof fn law_routes_carry_the_url_path(method: Seq<char>, url: Seq<char>)
    ensures
        route_of(method, url) == RouteView::Transaction ==> method == "POST"@ && url_path(url) == "/transaction"@,
        route_of(method, url) is Post ==> method == "POST"@ && route_of(method, url)->Post_path == url_path(url),
        route_of(method, url) is Get ==> route_of(method, url)->Get_path == url_path(url),
        route_of(method, url) is Query ==> route_of(method, url)->Query_path == url_path(url),
        route_of(method, url) is Update ==> route_of(method, url)->Update_path == url_path(url),
        route_of(method, url) is Delete ==> route_of(method, url)->Delete_path == url_path(url),
{
}

} // verus!
