//! The ends of a forwarded connection, as text: `tcp:<port>`, or the name of
//! a service.

use vstd::prelude::*;
use crate::number::{decimal, digits, lemma_digits_read_back, number, parse_number};
use crate::text::{
    law_only_a_prefix_comes_off, law_prefix_comes_off, same_text, strip_prefix, stripped,
};

verus! {

/// One end of a forwarded connection.
#[derive(Debug, Clone, PartialEq, Eq, Hash)]
pub enum Proto {
    Tcp(u16),
    Other(String),
}

/// One end of a forwarded connection.
#[verifier::ext_equal]
pub enum ProtoView {
    Tcp(u16),
    Other(Seq<char>),
}

impl View for Proto {
    type V = ProtoView;

    open spec fn view(&self) -> ProtoView {
        match self {
            Proto::Tcp(port) => ProtoView::Tcp(*port),
            Proto::Other(name) => ProtoView::Other(name@),
        }
    }
}

/// The end that the text names; there is none where a port should stand and
/// does not.
pub open spec fn parsed_proto(s: Seq<char>) -> Option<ProtoView> {
    match stripped(s, "tcp:"@) {
        Some(port) => match number(port, 10) {
            Some(n) => if n <= 0xffff {
                Some(ProtoView::Tcp(n as u16))
            } else {
                None
            },
            None => None,
        },
        None => Some(ProtoView::Other(s)),
    }
}

/// The text that names the end.
pub open spec fn proto_text(p: ProtoView) -> Seq<char> {
    match p {
        ProtoView::Tcp(port) => "tcp:"@ + digits(port as int, 10),
        ProtoView::Other(name) => name,
    }
}

impl Proto {
    /// Reads the text that names an end.
    pub fn parse(s: &str) -> (proto: Option<Proto>)
        ensures
            match proto {
                Some(p) => parsed_proto(s@) == Some(p@),
                None => parsed_proto(s@) is None,
            },
    {
        match strip_prefix(s, "tcp:") {
            Some(port) => match parse_number(port, 10, 0xffff) {
                Some(n) => Some(Proto::Tcp(n as u16)),
                None => None,
            },
            None => Some(Proto::Other(s.to_owned())),
        }
    }

    /// The text that names the end.
    pub fn text(&self) -> (text: String)
        ensures
            text@ == proto_text(self@),
    {
        match self {
            Proto::Tcp(port) => {
                let mut text = "tcp:".to_owned();
                text.append(decimal(*port as u64).as_str());
                text
            },
            Proto::Other(name) => name.clone(),
        }
    }

    /// Whether the two are the same end.
    pub fn same(&self, other: &Proto) -> (same: bool)
        ensures
            same == (self@ == other@),
    {
        match (self, other) {
            (Proto::Tcp(a), Proto::Tcp(b)) => *a == *b,
            (Proto::Other(a), Proto::Other(b)) => same_text(a.as_str(), b.as_str()),
            _ => false,
        }
    }

    /// The same end once more.
    pub fn copy(&self) -> (copy: Proto)
        ensures
            copy@ == self@,
    {
        match self {
            Proto::Tcp(port) => Proto::Tcp(*port),
            Proto::Other(name) => Proto::Other(name.clone()),
        }
    }
}

/// The text of an end reads back as that end, unless it is a service whose
/// name starts like a port.
pub proof fn law_proto_reads_back(p: ProtoView)
    requires
        p matches ProtoView::Other(name) ==> stripped(name, "tcp:"@) is None,
    ensures
        parsed_proto(proto_text(p)) == Some(p),
{
    match p {
        ProtoView::Tcp(port) => {
            let text = digits(port as int, 10);
            lemma_digits_read_back(port as int, 10);
            let s = "tcp:"@ + text;
            assert(s.take("tcp:"@.len() as int) =~= "tcp:"@);
            assert(s.skip("tcp:"@.len() as int) =~= text);
        },
        ProtoView::Other(name) => {},
    }
}

/// A port is named by `tcp:` and its number, and everything that is not named
/// like a port is the name of a service.
pub proof fn law_ends_are_named(port: u16, name: Seq<char>)
    ensures
        proto_text(ProtoView::Tcp(port)) == "tcp:"@ + digits(port as int, 10),
        parsed_proto("tcp:"@ + digits(port as int, 10)) == Some(ProtoView::Tcp(port)),
        proto_text(ProtoView::Other(name)) == name,
        stripped(name, "tcp:"@) is None ==> parsed_proto(name) == Some(ProtoView::Other(name)),
{
    law_proto_reads_back(ProtoView::Tcp(port));
}

/// What is named like a port and has no number of a port behind it names
/// nothing.
pub proof fn law_only_ports_are_read(text: Seq<char>)
    ensures
        match parsed_proto("tcp:"@ + text) {
            Some(p) => p is Tcp && number(text, 10) == Some(p->Tcp_0 as int),
            None => match number(text, 10) {
                Some(n) => n > 0xffff,
                None => true,
            },
        },
{
    law_prefix_comes_off("tcp:"@, text);
    lemma_number_is_not_negative(text);
}

proof fn lemma_number_is_not_negative(text: Seq<char>)
    ensures
        number(text, 10) matches Some(n) ==> n >= 0,
{
    let body = crate::number::unsigned_part(text);
    if number(text, 10) is Some {
        lemma_value_is_not_negative(body);
    }
}

proof fn lemma_value_is_not_negative(s: Seq<char>)
    requires
        crate::number::all_digits(s, 10),
    ensures
        crate::number::value_of(s, 10) >= 0,
    decreases s.len(),
{
    if s.len() > 0 {
        let t = s.drop_last();
        assert forall|i: int| 0 <= i < t.len() implies #[trigger] crate::number::digit_value(
            t[i],
            10,
        ) >= 0 by {
            assert(crate::number::digit_value(s[i], 10) >= 0);
        }
        lemma_value_is_not_negative(t);
        assert(crate::number::digit_value(s[s.len() - 1], 10) >= 0);
    }
}

/// An end is read from `tcp:` and the number of a port, or else is the service of
/// that name; it is written in the same way, and a copy of it is the same end.
pub proof fn law_ends_are_written_and_read(
    p: Proto,
    text: String,
    slice: &str,
    back: Option<Proto>,
    port: u16,
    number: String,
    copy: Proto,
    other: Proto,
    same: bool,
    other_text: String,
)
    requires
        call_ensures(Proto::text, (&p,), text),
        call_ensures(Proto::text, (&other,), other_text),
        call_ensures(decimal, (port as u64,), number),
        slice@ == text@,
        call_ensures(Proto::parse, (slice,), back),
        call_ensures(Proto::copy, (&p,), copy),
        call_ensures(Proto::same, (&p, &other), same),
    ensures
        p == Proto::Tcp(port) ==> text@ == "tcp:"@ + number@ && back == Some(p) && copy == p,
        p matches Proto::Other(name) ==> {
            &&& text@ == name@
            &&& copy matches Proto::Other(n) && n@ == name@
            &&& (forall|rest: Seq<char>| name@ != #[trigger] ("tcp:"@ + rest)) ==> (
            back matches Some(Proto::Other(n)) && n@ == name@)
        },
        same ==> text@ == other_text@,
        same ==> (p is Tcp <==> other is Tcp),
        (p is Tcp <==> other is Tcp) && text@ == other_text@ ==> same,
{
    law_ends_are_named(port, seq![]);
    match p {
        Proto::Tcp(a) => {
            law_proto_reads_back(p@);
            if let Some(Proto::Other(n)) = back {
                assert(back->0@ == p@);
            }
            if let Proto::Tcp(b) = other {
                law_proto_reads_back(other@);
            }
        },
        Proto::Other(name) => {
            if stripped(name@, "tcp:"@) is Some {
                let rest = stripped(name@, "tcp:"@)->0;
                law_only_a_prefix_comes_off(name@, "tcp:"@);
                assert(name@ == "tcp:"@ + rest);
            } else if let Some(q) = back {
                assert(q@ == p@);
            }
        },
    }
}

} // verus!
