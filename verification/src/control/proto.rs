//! management-only text protocol; the hot path bypasses this socket entirely
//! (nx opens the ns file and setns), so no fds, just human-readable lines

use crate::api::err::{Error, ErrorView, Result, result_view};
use crate::text::{concat, is_word, lemma_words_single, lemma_words_word_sep, split_words, str_eq, views, words};
use vstd::prelude::*;

verus! {

#[derive(Clone, Debug, PartialEq, Eq)]
pub enum Request {
    /// build and pin a layer's namespace now (warm it)
    Build(String),
    /// drop a layer's namespace, unmounting its pin
    Evict(String),
    /// list built layers
    List,
    /// daemon liveness and built count
    Status,
}

pub enum RequestView {
    Build(Seq<char>),
    Evict(Seq<char>),
    List,
    Status,
}

impl View for Request {
    type V = RequestView;

    open spec fn view(&self) -> RequestView {
        match self {
            Request::Build(l) => RequestView::Build(l@),
            Request::Evict(l) => RequestView::Evict(l@),
            Request::List => RequestView::List,
            Request::Status => RequestView::Status,
        }
    }
}

#[derive(Clone, Debug, PartialEq, Eq)]
pub enum Reply {
    /// the request was carried out
    Okay,
    Lines(Vec<String>),
    /// the request failed, with the rendered error
    Failed(String),
}

pub enum ReplyView {
    Okay,
    Lines(Seq<Seq<char>>),
    Failed(Seq<char>),
}

impl View for Reply {
    type V = ReplyView;

    open spec fn view(&self) -> ReplyView {
        match self {
            Reply::Okay => ReplyView::Okay,
            Reply::Lines(ls) => ReplyView::Lines(views(ls@)),
            Reply::Failed(m) => ReplyView::Failed(m@),
        }
    }
}

/// what a request line means: the first whitespace-separated word is the
/// verb, the second (if any) its layer argument; further words are ignored
pub open spec fn parse_spec(line: Seq<char>) -> std::result::Result<RequestView, ErrorView> {
    let ws = words(line);
    let verb = if ws.len() > 0 {
        ws[0]
    } else {
        Seq::<char>::empty()
    };
    let arg = if ws.len() > 1 {
        Some(ws[1])
    } else {
        None
    };
    if verb == "build"@ {
        match arg {
            Some(a) => Ok(RequestView::Build(a)),
            None => Err(ErrorView::Config(verb + ": missing layer"@)),
        }
    } else if verb == "evict"@ {
        match arg {
            Some(a) => Ok(RequestView::Evict(a)),
            None => Err(ErrorView::Config(verb + ": missing layer"@)),
        }
    } else if verb == "list"@ {
        Ok(RequestView::List)
    } else if verb == "status"@ {
        Ok(RequestView::Status)
    } else {
        Err(ErrorView::Config("unknown verb: "@ + verb))
    }
}

/// the wire form of a request
pub open spec fn encode_spec(r: RequestView) -> Seq<char> {
    match r {
        RequestView::Build(l) => "build "@ + l,
        RequestView::Evict(l) => "evict "@ + l,
        RequestView::List => "list"@,
        RequestView::Status => "status"@,
    }
}

/// lines joined by a newline, none after the last
pub open spec fn join_lines(ls: Seq<Seq<char>>) -> Seq<char>
    decreases ls.len(),
{
    if ls.len() == 0 {
        Seq::<char>::empty()
    } else if ls.len() == 1 {
        ls[0]
    } else {
        join_lines(ls.drop_last()) + "\n"@ + ls.last()
    }
}

/// the wire form of a reply: body lines, then a blank terminator line
pub open spec fn reply_encode_spec(r: ReplyView) -> Seq<char> {
    let body = match r {
        ReplyView::Okay => "ok"@,
        ReplyView::Lines(ls) => join_lines(ls),
        ReplyView::Failed(m) => "err "@ + m,
    };
    body + "\n\n"@
}

fn missing_layer(verb: &str) -> (e: Error)
    ensures
        e@ == ErrorView::Config(verb@ + ": missing layer"@),
{
    Error::Config(concat(verb, ": missing layer"))
}

impl Request {
    pub fn parse(line: &str) -> (res: Result<Request>)
        ensures
            result_view(res) == parse_spec(line@),
    {
        let ws = split_words(line);
        let empty = String::new();
        let verb: &String = if ws.len() > 0 {
            &ws[0]
        } else {
            &empty
        };
        proof {
            if ws@.len() > 0 {
                assert(verb@ == views(ws@)[0]);
            }
        }
        if str_eq(verb.as_str(), "build") {
            if ws.len() > 1 {
                assert(ws@[1]@ == views(ws@)[1]);
                Ok(Request::Build(ws[1].clone()))
            } else {
                Err(missing_layer(verb.as_str()))
            }
        } else if str_eq(verb.as_str(), "evict") {
            if ws.len() > 1 {
                assert(ws@[1]@ == views(ws@)[1]);
                Ok(Request::Evict(ws[1].clone()))
            } else {
                Err(missing_layer(verb.as_str()))
            }
        } else if str_eq(verb.as_str(), "list") {
            Ok(Request::List)
        } else if str_eq(verb.as_str(), "status") {
            Ok(Request::Status)
        } else {
            Err(Error::Config(concat("unknown verb: ", verb.as_str())))
        }
    }

    pub fn encode(&self) -> (s: String)
        ensures
            s@ == encode_spec(self@),
    {
        match self {
            Request::Build(l) => concat("build ", l.as_str()),
            Request::Evict(l) => concat("evict ", l.as_str()),
            Request::List => String::from_str("list"),
            Request::Status => String::from_str("status"),
        }
    }
}

fn join_with_newlines(ls: &Vec<String>) -> (s: String)
    ensures
        s@ == join_lines(views(ls@)),
{
    let mut s = String::new();
    let mut i: usize = 0;
    while i < ls.len()
        invariant
            i <= ls@.len(),
            s@ == join_lines(views(ls@).take(i as int)),
        decreases ls@.len() - i,
    {
        let ghost before = views(ls@).take(i as int);
        if i > 0 {
            s.append("\n");
        }
        s.append(ls[i].as_str());
        proof {
            let after = views(ls@).take(i + 1);
            assert(after.drop_last() =~= before);
            assert(after.last() == ls@[i as int]@);
            if i == 0 {
                assert(after =~= seq![ls@[0]@]);
            }
        }
        i += 1;
    }
    assert(views(ls@).take(ls@.len() as int) =~= views(ls@));
    s
}

impl Reply {
    /// wire form: body lines then a blank terminator line
    pub fn encode(&self) -> (s: String)
        ensures
            s@ == reply_encode_spec(self@),
    {
        let mut body = match self {
            Reply::Okay => String::from_str("ok"),
            Reply::Lines(ls) => join_with_newlines(ls),
            Reply::Failed(m) => concat("err ", m.as_str()),
        };
        body.append("\n\n");
        body
    }
}

/// A request whose layer argument is a single word survives the trip
/// through its wire form: parsing what encode wrote gives the request back.
pub proof fn law_request_roundtrip(r: RequestView)
    requires
        r matches RequestView::Build(l) ==> is_word(l),
        r matches RequestView::Evict(l) ==> is_word(l),
    ensures
        parse_spec(encode_spec(r)) == Ok::<RequestView, ErrorView>(r),
{
    reveal_strlit("build ");
    reveal_strlit("evict ");
    reveal_strlit("build");
    reveal_strlit("evict");
    reveal_strlit("list");
    reveal_strlit("status");
    match r {
        RequestView::Build(l) => {
            let verb = "build"@;
            assert("build "@ =~= verb + seq![' ']);
            assert(is_word(verb));
            lemma_words_word_sep(verb, ' ', l);
            lemma_words_single(l);
            assert(encode_spec(r) =~= verb + seq![' '] + l);
            assert(words(encode_spec(r)) =~= seq![verb, l]);
        },
        RequestView::Evict(l) => {
            let verb = "evict"@;
            assert("evict "@ =~= verb + seq![' ']);
            assert(is_word(verb));
            lemma_words_word_sep(verb, ' ', l);
            lemma_words_single(l);
            assert(encode_spec(r) =~= verb + seq![' '] + l);
            assert(words(encode_spec(r)) =~= seq![verb, l]);
            assert(verb != "build"@);
        },
        RequestView::List => {
            assert(is_word("list"@));
            lemma_words_single("list"@);
            assert("list"@ != "build"@);
            assert("list"@ != "evict"@);
        },
        RequestView::Status => {
            assert(is_word("status"@));
            lemma_words_single("status"@);
            assert("status"@ != "build"@);
            assert("status"@ != "evict"@);
            assert("status"@ != "list"@);
        },
    }
}

/// Every reply, whatever its body, ends with the blank line that tells the
/// client the reply is complete.
pub proof fn law_reply_ends_blank(r: ReplyView)
    ensures
        reply_encode_spec(r).len() >= 2,
        reply_encode_spec(r).subrange(reply_encode_spec(r).len() - 2, reply_encode_spec(r).len() as int)
            == "\n\n"@,
{
    reveal_strlit("\n\n");
    let e = reply_encode_spec(r);
    assert(e.subrange(e.len() - 2, e.len() as int) =~= "\n\n"@);
}

} // verus!
