//! The demo application logic around the server core: the todo record with
//! its JSON codec, the route bodies for the todo list, and the string-state
//! routes. Everything here is pure computation from values to values; the
//! embedding program owns the lock around the shared state and hands the
//! guarded value in.

use crate::chars::find_char_from;
use crate::chars::find_char;
use crate::chars::lemma_find_char_bounds;
use crate::chars::str_eq;
use crate::chars::str_to_chars;
use crate::headers::headers_view;
use crate::request::Method;
use crate::request::Request;
use crate::response::RespView;
use crate::response::Response;
use crate::response::StatusCode;
use crate::response::new_spec;
use vstd::prelude::*;
use vstd::string::*;
use vstd::utf8::encode_utf8;

verus! {

/// One todo record.
#[derive(Debug)]
pub struct Todo {
    pub id: String,
    pub completed_at: bool,
    pub title: String,
}

/// The abstract value of a todo.
pub struct TodoView {
    pub id: Seq<char>,
    pub completed_at: bool,
    pub title: Seq<char>,
}

impl View for Todo {
    type V = TodoView;

    open spec fn view(&self) -> TodoView {
        TodoView { id: self.id@, completed_at: self.completed_at, title: self.title@ }
    }
}

impl PartialEq for Todo {
    fn eq(&self, o: &Todo) -> (r: bool) {
        self.id == o.id && self.completed_at == o.completed_at && self.title == o.title
    }
}

impl vstd::std_specs::cmp::PartialEqSpecImpl for Todo {
    open spec fn obeys_eq_spec() -> bool {
        true
    }

    open spec fn eq_spec(&self, o: &Todo) -> bool {
        self@ == o@
    }
}

/// `s` contains no double-quote character.
pub open spec fn quote_free(s: Seq<char>) -> bool {
    forall|i: int| 0 <= i < s.len() ==> s[i] != '"'
}

/// `p` is a prefix of `s`.
pub open spec fn starts_with(s: Seq<char>, p: Seq<char>) -> bool {
    s.len() >= p.len() && s.subrange(0, p.len() as int) == p
}

/// The characters before the first double quote of `s`, and everything after
/// that quote; nothing when `s` has no quote.
pub open spec fn take_quote(s: Seq<char>) -> Option<(Seq<char>, Seq<char>)>
    decreases s.len(),
{
    if s.len() == 0 {
        None
    } else if s[0] == '"' {
        Some((Seq::empty(), s.drop_first()))
    } else {
        match take_quote(s.drop_first()) {
            Some((pre, rest)) => Some((seq![s[0]] + pre, rest)),
            None => None,
        }
    }
}

/// `take_quote` on a suffix of `s`, phrased over the scan that the executable
/// code performs.
pub proof fn lemma_take_quote(s: Seq<char>, from: int)
    requires
        0 <= from <= s.len(),
    ensures
        match find_char_from(s, from, s.len() as int, '"') {
            Some(q) => take_quote(s.skip(from)) == Some(
                (s.subrange(from, q), s.skip(q + 1)),
            ),
            None => take_quote(s.skip(from)) is None,
        },
    decreases s.len() - from,
{
    if from == s.len() {
        assert(s.skip(from) =~= Seq::<char>::empty());
    } else if s[from] == '"' {
        assert(s.skip(from)[0] == '"');
        assert(s.skip(from).drop_first() =~= s.skip(from + 1));
        assert(s.subrange(from, from) =~= Seq::<char>::empty());
    } else {
        lemma_take_quote(s, from + 1);
        assert(s.skip(from)[0] == s[from]);
        assert(s.skip(from).drop_first() =~= s.skip(from + 1));
        match find_char_from(s, from + 1, s.len() as int, '"') {
            Some(q) => {
                lemma_find_char_bounds(s, from + 1, s.len() as int, '"');
                assert(seq![s[from]] + s.subrange(from + 1, q) =~= s.subrange(from, q));
            },
            None => {},
        }
    }
}

/// `take_quote` splits a quote-free prefix off at the quote that follows it.
pub proof fn lemma_take_quote_concat(a: Seq<char>, b: Seq<char>)
    requires
        quote_free(a),
    ensures
        take_quote(a + seq!['"'] + b) == Some((a, b)),
    decreases a.len(),
{
    let s = a + seq!['"'] + b;
    if a.len() == 0 {
        assert(s[0] == '"');
        assert(s.drop_first() =~= b);
        assert(a =~= Seq::<char>::empty());
    } else {
        assert(s[0] == a[0]);
        assert(s.drop_first() =~= a.drop_first() + seq!['"'] + b);
        lemma_take_quote_concat(a.drop_first(), b);
        assert(seq![a[0]] + a.drop_first() =~= a);
    }
}

pub open spec fn jl_head() -> Seq<char> {
    "{\"id\":\""@
}

pub open spec fn jl_completed() -> Seq<char> {
    ",\"completed_at\":"@
}

pub open spec fn jl_title() -> Seq<char> {
    ",\"title\":\""@
}

/// The canonical JSON rendering of a todo: its three fields in fixed order
/// with no surrounding whitespace. Field contents are emitted verbatim, so
/// the rendering is well-formed JSON exactly for quote- and backslash-free
/// fields.
pub open spec fn todo_json(t: TodoView) -> Seq<char> {
    jl_head() + t.id + seq!['"'] + jl_completed() + (if t.completed_at {
        "true"@
    } else {
        "false"@
    }) + jl_title() + t.title + seq!['"'] + seq!['}']
}

/// What parsing a todo body yields: the todo whose canonical rendering the
/// input is, reading each string field up to its closing quote; anything
/// else yields nothing.
pub open spec fn from_json_spec(s: Seq<char>) -> Option<TodoView> {
    if !starts_with(s, jl_head()) {
        None
    } else {
        match take_quote(s.skip(jl_head().len() as int)) {
            None => None,
            Some((id, r1)) => {
                if !starts_with(r1, jl_completed()) {
                    None
                } else {
                    let r2 = r1.skip(jl_completed().len() as int);
                    if starts_with(r2, "true"@) {
                        from_json_tail(id, true, r2.skip(4))
                    } else if starts_with(r2, "false"@) {
                        from_json_tail(id, false, r2.skip(5))
                    } else {
                        None
                    }
                }
            },
        }
    }
}

/// The title-and-closing part of a todo body, after the boolean.
pub open spec fn from_json_tail(id: Seq<char>, completed_at: bool, r3: Seq<char>) -> Option<
    TodoView,
> {
    if !starts_with(r3, jl_title()) {
        None
    } else {
        match take_quote(r3.skip(jl_title().len() as int)) {
            None => None,
            Some((title, r4)) => {
                if r4 == seq!['}'] {
                    Some(TodoView { id, completed_at, title })
                } else {
                    None
                }
            },
        }
    }
}

/// Whether `lit` occurs at position `pos` of `s`.
fn match_at(s: &Vec<char>, pos: usize, lit: &str) -> (r: bool)
    requires
        pos <= s@.len(),
    ensures
        r == starts_with(s@.skip(pos as int), lit@),
{
    let l = lit.unicode_len();
    let n = s.len();
    if l > n - pos {
        return false;
    }
    let mut j: usize = 0;
    while j < l
        invariant
            0 <= j <= l,
            pos + l <= n,
            n == s@.len(),
            l == lit@.len(),
            forall|k: int| 0 <= k < j ==> s@[pos + k] == lit@[k],
        decreases l - j,
    {
        if s[pos + j] != lit.get_char(j) {
            proof {
                if starts_with(s@.skip(pos as int), lit@) {
                    assert(s@.skip(pos as int).subrange(0, lit@.len() as int)[j as int]
                        == lit@[j as int]);
                }
            }
            return false;
        }
        j = j + 1;
    }
    proof {
        assert(s@.skip(pos as int).subrange(0, lit@.len() as int) =~= lit@);
    }
    true
}

impl Todo {
    /// Renders this todo in its canonical JSON form.
    pub fn to_json(&self) -> (r: String)
        ensures
            r@ == todo_json(self@),
    {
        let mut s = String::from_str("{\"id\":\"");
        s.append(self.id.as_str());
        s.append("\",\"completed_at\":");
        if self.completed_at {
            s.append("true");
        } else {
            s.append("false");
        }
        s.append(",\"title\":\"");
        s.append(self.title.as_str());
        s.append("\"}");
        proof {
            reveal_strlit("\",\"completed_at\":");
            reveal_strlit(",\"completed_at\":");
            reveal_strlit("\"}");
            assert(s@ =~= todo_json(self@));
        }
        s
    }

    /// Parses a todo body, accepting exactly the canonical renderings.
    pub fn from_json(s: &str) -> (r: Option<Todo>)
        ensures
            match r {
                Some(t) => from_json_spec(s@) == Some(t@),
                None => from_json_spec(s@) is None,
            },
    {
        let chars = str_to_chars(s);
        let n = chars.len();
        proof {
            assert(chars@.skip(0) =~= chars@);
        }
        if !match_at(&chars, 0, "{\"id\":\"") {
            return None;
        }
        let p0 = ("{\"id\":\"").unicode_len();
        proof {
            lemma_take_quote(chars@, p0 as int);
        }
        let q = match find_char(&chars, p0, n, '"') {
            Some(q) => q,
            None => {
                return None;
            },
        };
        proof {
            lemma_find_char_bounds(chars@, p0 as int, n as int, '"');
        }
        let id = s.substring_char(p0, q).to_owned();
        let ghost r1 = chars@.skip(q + 1);
        if !match_at(&chars, q + 1, ",\"completed_at\":") {
            return None;
        }
        let l2 = (",\"completed_at\":").unicode_len();
        let pos2 = q + 1 + l2;
        let ghost r2 = r1.skip(jl_completed().len() as int);
        proof {
            assert(r2 =~= chars@.skip(pos2 as int));
        }
        let completed_at: bool;
        let pos3: usize;
        if match_at(&chars, pos2, "true") {
            proof {
                reveal_strlit("true");
            }
            completed_at = true;
            pos3 = pos2 + 4;
        } else if match_at(&chars, pos2, "false") {
            proof {
                reveal_strlit("false");
            }
            completed_at = false;
            pos3 = pos2 + 5;
        } else {
            return None;
        }
        let ghost r3 = if completed_at {
            r2.skip(4)
        } else {
            r2.skip(5)
        };
        proof {
            assert(r3 =~= chars@.skip(pos3 as int));
        }
        if !match_at(&chars, pos3, ",\"title\":\"") {
            return None;
        }
        let l3 = (",\"title\":\"").unicode_len();
        let pos4 = pos3 + l3;
        proof {
            assert(r3.skip(jl_title().len() as int) =~= chars@.skip(pos4 as int));
            lemma_take_quote(chars@, pos4 as int);
        }
        let q2 = match find_char(&chars, pos4, n, '"') {
            Some(q2) => q2,
            None => {
                return None;
            },
        };
        proof {
            lemma_find_char_bounds(chars@, pos4 as int, n as int, '"');
        }
        let title = s.substring_char(pos4, q2).to_owned();
        let ghost r4 = chars@.skip(q2 + 1);
        if n - q2 == 2 && chars[q2 + 1] == '}' {
            proof {
                assert(r4 =~= seq!['}']);
            }
            Some(Todo { id, completed_at, title })
        } else {
            proof {
                if r4 == seq!['}'] {
                    assert(r4.len() == 1);
                    assert(chars@.skip((q2 + 1) as int)[0] == chars@[(q2 + 1) as int]);
                    assert(chars@[(q2 + 1) as int] == '}');
                }
            }
            None
        }
    }
}

/// The view of a todo list.
pub open spec fn todos_view(ts: Seq<Todo>) -> Seq<TodoView> {
    ts.map_values(|t: Todo| t@)
}

/// The items of the JSON array, comma separated.
pub open spec fn todos_json_inner(ts: Seq<TodoView>) -> Seq<char>
    decreases ts.len(),
{
    if ts.len() == 0 {
        Seq::empty()
    } else if ts.len() == 1 {
        todo_json(ts[0])
    } else {
        todos_json_inner(ts.drop_last()) + seq![','] + todo_json(ts.last())
    }
}

/// The JSON array rendering of a todo list.
pub open spec fn todos_json(ts: Seq<TodoView>) -> Seq<char> {
    seq!['['] + todos_json_inner(ts) + seq![']']
}

/// Renders the whole list as a JSON array.
pub fn todos_to_json(ts: &Vec<Todo>) -> (r: String)
    ensures
        r@ == todos_json(todos_view(ts@)),
{
    let ghost tv = todos_view(ts@);
    let mut s = String::from_str("[");
    let n = ts.len();
    let mut i: usize = 0;
    proof {
        reveal_strlit("[");
        assert(tv.subrange(0, 0) =~= Seq::<TodoView>::empty());
        assert(s@ =~= seq!['['] + todos_json_inner(tv.subrange(0, 0)));
    }
    while i < n
        invariant
            0 <= i <= n,
            n == ts@.len(),
            tv == todos_view(ts@),
            s@ == seq!['['] + todos_json_inner(tv.subrange(0, i as int)),
        decreases n - i,
    {
        if i > 0 {
            s.append(",");
            proof {
                reveal_strlit(",");
                assert(","@ =~= seq![',']);
            }
        }
        let item = ts[i].to_json();
        s.append(item.as_str());
        proof {
            let now = tv.subrange(0, (i + 1) as int);
            assert(now.drop_last() =~= tv.subrange(0, i as int));
            assert(now.last() == tv[i as int]);
            assert(tv[i as int] == ts@[i as int]@);
            if i == 0 {
                assert(now.len() == 1);
                assert(now[0] == tv[0]);
                assert(s@ =~= seq!['['] + todos_json_inner(now));
            } else {
                assert(s@ =~= seq!['['] + todos_json_inner(now));
            }
        }
        i = i + 1;
    }
    s.append("]");
    proof {
        reveal_strlit("]");
        assert("]"@ =~= seq![']']);
        assert(tv.subrange(0, n as int) =~= tv);
        assert(s@ =~= todos_json(tv));
    }
    s
}

/// The GET `/todos` route: the whole list rendered as JSON, with
/// `Content-Type: application/json` set; the embedding program reads the
/// shared list under its lock and hands it in.
pub fn get_state(_req: &Request, todos: &Vec<Todo>) -> (r: Response)
    ensures
        r@ == new_spec(
            StatusCode::OK,
            seq![("Content-Type"@, "application/json"@)],
            encode_utf8(todos_json(todos_view(todos@))),
        ),
{
    let body = todos_to_json(todos);
    let mut hs: Vec<(String, String)> = Vec::new();
    hs.push((String::from_str("Content-Type"), String::from_str("application/json")));
    proof {
        assert(headers_view(hs@) =~= seq![("Content-Type"@, "application/json"@)]);
    }
    Response::new(StatusCode::OK, hs, body.as_str().as_bytes_vec())
}

/// The POST `/todos` route: parse the body as a todo and append it to the
/// list, or leave the list alone and answer 400 `Invalid body`.
pub fn post_todo(body: &str, todos: &mut Vec<Todo>) -> (r: Response)
    ensures
        match from_json_spec(body@) {
            Some(tv) => todos_view(final(todos)@) == todos_view(old(todos)@).push(tv) && r@
                == new_spec(StatusCode::OK, Seq::empty(), encode_utf8("State updated"@)),
            None => final(todos)@ == old(todos)@ && r@ == new_spec(
                StatusCode::BadRequest,
                Seq::empty(),
                encode_utf8("Invalid body"@),
            ),
        },
{
    match Todo::from_json(body) {
        Some(t) => {
            let ghost tv = t@;
            let ghost before = todos_view(todos@);
            todos.push(t);
            let r = Response::new(StatusCode::OK, Vec::new(), ("State updated").as_bytes_vec());
            proof {
                assert(todos_view(todos@) =~= before.push(tv));
                assert(headers_view(Seq::<(String, String)>::empty())
                    =~= Seq::<(Seq<char>, Seq<char>)>::empty());
            }
            r
        },
        None => {
            let r = Response::new(
                StatusCode::BadRequest,
                Vec::new(),
                ("Invalid body").as_bytes_vec(),
            );
            proof {
                assert(headers_view(Seq::<(String, String)>::empty())
                    =~= Seq::<(Seq<char>, Seq<char>)>::empty());
            }
            r
        },
    }
}

/// The DELETE `/todos` route: clear the list.
pub fn delete_todos(todos: &mut Vec<Todo>) -> (r: Response)
    ensures
        final(todos)@ == Seq::<Todo>::empty(),
        r@ == new_spec(StatusCode::OK, Seq::empty(), encode_utf8("State cleared"@)),
{
    todos.clear();
    let r = Response::new(StatusCode::OK, Vec::new(), ("State cleared").as_bytes_vec());
    proof {
        assert(headers_view(Seq::<(String, String)>::empty())
            =~= Seq::<(Seq<char>, Seq<char>)>::empty());
    }
    r
}

/// What the string-state demo answers: `/` greets, GET `/state` reads, POST
/// `/state` overwrites with the request body, DELETE `/state` clears, and
/// anything else is 404 `Not Found`. The pair is the response and the state
/// to keep.
pub open spec fn create_response_spec(req: crate::request::ReqView, state: Seq<char>) -> (
    RespView,
    Seq<char>,
) {
    if req.method == Method::GET && req.path == "/"@ {
        (new_spec(StatusCode::OK, Seq::empty(), encode_utf8("Hello, world!"@)), state)
    } else if req.method == Method::GET && req.path == "/state"@ {
        (new_spec(StatusCode::Created, Seq::empty(), encode_utf8(state)), state)
    } else if req.method == Method::POST && req.path == "/state"@ {
        (new_spec(StatusCode::Created, Seq::empty(), encode_utf8(req.body)), req.body)
    } else if req.method == Method::DELETE && req.path == "/state"@ {
        (
            new_spec(StatusCode::OK, Seq::empty(), encode_utf8(Seq::<char>::empty())),
            Seq::<char>::empty(),
        )
    } else {
        (new_spec(StatusCode::NotFound, Seq::empty(), encode_utf8("Not Found"@)), state)
    }
}

/// The string-state demo dispatcher: answers one request from the current
/// state and yields the state to keep; the embedding program holds the lock
/// around the call.
pub fn create_response(req: &Request, state: &String) -> (r: (Response, String))
    ensures
        ({
            let (rv, st) = create_response_spec(req@, state@);
            r.0@ == rv && r.1@ == st
        }),
{
    proof {
        assert(headers_view(Seq::<(String, String)>::empty())
            =~= Seq::<(Seq<char>, Seq<char>)>::empty());
    }
    let is_get = *req.method() == Method::GET;
    let is_post = *req.method() == Method::POST;
    let is_delete = *req.method() == Method::DELETE;
    if is_get && str_eq(req.path().as_str(), "/") {
        (
            Response::new(StatusCode::OK, Vec::new(), ("Hello, world!").as_bytes_vec()),
            state.clone(),
        )
    } else if is_get && str_eq(req.path().as_str(), "/state") {
        (
            Response::new(StatusCode::Created, Vec::new(), state.as_str().as_bytes_vec()),
            state.clone(),
        )
    } else if is_post && str_eq(req.path().as_str(), "/state") {
        (
            Response::new(StatusCode::Created, Vec::new(), req.body().as_str().as_bytes_vec()),
            req.body().clone(),
        )
    } else if is_delete && str_eq(req.path().as_str(), "/state") {
        proof {
            assert(encode_utf8(Seq::<char>::empty()) =~= Seq::<u8>::empty());
        }
        (Response::new(StatusCode::OK, Vec::new(), Vec::new()), String::new())
    } else {
        (
            Response::new(StatusCode::NotFound, Vec::new(), ("Not Found").as_bytes_vec()),
            state.clone(),
        )
    }
}

/// A successful `take_quote` is exact: the input is the prefix, the quote,
/// and the rest, and the prefix holds no quote.
pub proof fn lemma_take_quote_sound(s: Seq<char>)
    ensures
        take_quote(s) matches Some((pre, rest)) ==> s == pre + seq!['"'] + rest && quote_free(
            pre,
        ),
    decreases s.len(),
{
    if s.len() > 0 && s[0] != '"' {
        lemma_take_quote_sound(s.drop_first());
        match take_quote(s.drop_first()) {
            Some((pre, rest)) => {
                assert(s =~= seq![s[0]] + s.drop_first());
                assert(s =~= (seq![s[0]] + pre) + seq!['"'] + rest);
                assert forall|i: int| 0 <= i < (seq![s[0]] + pre).len() implies (seq![s[0]]
                    + pre)[i] != '"' by {
                    if i > 0 {
                        assert((seq![s[0]] + pre)[i] == pre[i - 1]);
                    }
                }
            },
            None => {},
        }
    } else if s.len() > 0 {
        assert(s =~= Seq::<char>::empty() + seq!['"'] + s.drop_first());
    }
}

/// A successful parse is exact: the input is the canonical rendering of the
/// todo it yields, and that todo's string fields are quote-free. Together
/// with the round trip below, the codec accepts exactly the canonical
/// renderings of quote-free todos.
pub proof fn lemma_from_json_sound(s: Seq<char>, t: TodoView)
    requires
        from_json_spec(s) == Some(t),
    ensures
        s == todo_json(t),
        quote_free(t.id),
        quote_free(t.title),
{
    let after_head = s.skip(jl_head().len() as int);
    assert(s =~= jl_head() + after_head);
    lemma_take_quote_sound(after_head);
    let (id, r1) = take_quote(after_head).unwrap();
    let r2 = r1.skip(jl_completed().len() as int);
    assert(r1 =~= jl_completed() + r2);
    reveal_strlit("true");
    reveal_strlit("false");
    let boolstr: Seq<char> = if starts_with(r2, "true"@) {
        "true"@
    } else {
        "false"@
    };
    let r3 = r2.skip(boolstr.len() as int);
    assert(r2 =~= boolstr + r3);
    let r4 = r3.skip(jl_title().len() as int);
    assert(r3 =~= jl_title() + r4);
    lemma_take_quote_sound(r4);
    let (title, r5) = take_quote(r4).unwrap();
    assert(s =~= jl_head() + id + seq!['"'] + jl_completed() + boolstr + jl_title() + title
        + seq!['"'] + seq!['}']);
}
/// Parsing the canonical rendering of a todo with quote-free fields recovers
/// exactly that todo: the codec round-trips.
pub proof fn lemma_todo_round_trip(t: TodoView)
    requires
        quote_free(t.id),
        quote_free(t.title),
    ensures
        from_json_spec(todo_json(t)) == Some(t),
{
    let s = todo_json(t);
    let boolstr: Seq<char> = if t.completed_at {
        "true"@
    } else {
        "false"@
    };
    let after_head = t.id + seq!['"'] + jl_completed() + boolstr + jl_title() + t.title
        + seq!['"'] + seq!['}'];
    assert(s.subrange(0, jl_head().len() as int) =~= jl_head());
    assert(starts_with(s, jl_head()));
    assert(s.skip(jl_head().len() as int) =~= after_head);
    let tail1 = jl_completed() + boolstr + jl_title() + t.title + seq!['"'] + seq!['}'];
    assert(after_head =~= t.id + seq!['"'] + tail1);
    lemma_take_quote_concat(t.id, tail1);
    assert(tail1.subrange(0, jl_completed().len() as int) =~= jl_completed());
    assert(starts_with(tail1, jl_completed()));
    let r2 = tail1.skip(jl_completed().len() as int);
    assert(r2 =~= boolstr + jl_title() + t.title + seq!['"'] + seq!['}']);
    reveal_strlit("true");
    reveal_strlit("false");
    assert(r2.subrange(0, boolstr.len() as int) =~= boolstr);
    assert(starts_with(r2, boolstr));
    if t.completed_at {
        assert(!starts_with(r2, "false"@)) by {
            if starts_with(r2, "false"@) {
                assert(r2.subrange(0, 5)[0] == r2[0]);
                assert(r2[0] == 't');
            }
        }
    } else {
        assert(!starts_with(r2, "true"@)) by {
            if starts_with(r2, "true"@) {
                assert(r2.subrange(0, 4)[0] == r2[0]);
                assert(r2[0] == 'f');
            }
        }
    }
    let r3 = if t.completed_at {
        r2.skip(4)
    } else {
        r2.skip(5)
    };
    assert(r3 =~= jl_title() + t.title + seq!['"'] + seq!['}']);
    assert(r3.subrange(0, jl_title().len() as int) =~= jl_title());
    assert(starts_with(r3, jl_title()));
    let tail2 = seq!['}'];
    assert(r3.skip(jl_title().len() as int) =~= t.title + seq!['"'] + tail2);
    lemma_take_quote_concat(t.title, tail2);
}

} // verus!
