//! The connection string with which a device presents itself:
//! `type:serial:name=value;name=value;...`.

use vstd::prelude::*;
use crate::text::{
    has_prefix, law_cut_at_the_first, law_cut_takes_one_separator_out, same_text, split_at_first,
    split_once,
};

verus! {

/// What kind of system answered.
#[derive(Debug, Clone, PartialEq, Eq)]
pub enum DeviceType {
    /// A booted device.
    Device,
    /// Anything else, under the name that it gave.
    Other(String),
}

impl DeviceType {
    /// The name of the kind.
    pub open spec fn name(self) -> Seq<char> {
        match self {
            DeviceType::Device => "device"@,
            DeviceType::Other(s) => s@,
        }
    }

    /// Whether `Device` is told apart from everything else.
    pub open spec fn wf(self) -> bool {
        self is Device <==> self.name() == "device"@
    }

    /// The kind of this name.
    pub fn parse(name: &str) -> (kind: DeviceType)
        ensures
            kind.wf(),
            kind.name() == name@,
    {
        if same_text(name, "device") {
            DeviceType::Device
        } else {
            DeviceType::Other(name.to_owned())
        }
    }

    /// The name of the kind.
    pub fn text(&self) -> (name: String)
        ensures
            name@ == self.name(),
    {
        match self {
            DeviceType::Device => "device".to_owned(),
            DeviceType::Other(s) => s.clone(),
        }
    }
}

/// `s` cut at every `sep`.
pub open spec fn split_all(s: Seq<char>, sep: char) -> Seq<Seq<char>>
    decreases s.len(),
{
    match split_at_first(s, sep) {
        None => seq![s],
        Some((head, tail)) => if tail.len() < s.len() {
            seq![head] + split_all(tail, sep)
        } else {
            seq![s]
        },
    }
}

/// The texts put together, with `sep` between them.
pub open spec fn joined(parts: Seq<Seq<char>>, sep: char) -> Seq<char>
    decreases parts.len(),
{
    if parts.len() == 0 {
        seq![]
    } else if parts.len() == 1 {
        parts[0]
    } else {
        joined(parts.drop_last(), sep) + seq![sep] + parts.last()
    }
}

/// The characters of each string.
pub open spec fn texts(v: Seq<String>) -> Seq<Seq<char>> {
    Seq::new(v.len(), |i: int| v[i]@)
}

/// The characters of each name and value.
pub open spec fn pairs(v: Seq<(String, String)>) -> Seq<(Seq<char>, Seq<char>)> {
    Seq::new(v.len(), |i: int| (v[i].0@, v[i].1@))
}

/// The pieces that have the form `name=value`, cut at the first `=`.
pub open spec fn properties(pieces: Seq<Seq<char>>) -> Seq<(Seq<char>, Seq<char>)>
    decreases pieces.len(),
{
    if pieces.len() == 0 {
        seq![]
    } else {
        let before = properties(pieces.drop_last());
        match split_at_first(pieces.last(), '=') {
            Some(p) => before.push(p),
            None => before,
        }
    }
}

/// The value under the first occurrence of `name`.
pub open spec fn lookup(props: Seq<(Seq<char>, Seq<char>)>, name: Seq<char>) -> Option<Seq<char>>
    decreases props.len(),
{
    if props.len() == 0 {
        None
    } else if props[0].0 == name {
        Some(props[0].1)
    } else {
        lookup(props.skip(1), name)
    }
}

/// The features that the properties list, separated by commas.
pub open spec fn listed_features(props: Seq<(Seq<char>, Seq<char>)>) -> Seq<Seq<char>> {
    match lookup(props, "features"@) {
        Some(list) => if list.len() == 0 {
            seq![]
        } else {
            split_all(list, ',')
        },
        None => seq![],
    }
}

/// What a connection string says.
#[verifier::ext_equal]
pub struct BannerView {
    pub device_type: Seq<char>,
    pub props: Seq<(Seq<char>, Seq<char>)>,
    pub features: Seq<Seq<char>>,
}

/// What the connection string `s` says, if it has its two colons.
pub open spec fn parsed_banner(s: Seq<char>) -> Option<BannerView> {
    match split_at_first(s, ':') {
        None => None,
        Some((device_type, rest)) => match split_at_first(rest, ':') {
            None => None,
            Some((_, tail)) => {
                let props = properties(split_all(tail, ';'));
                Some(BannerView { device_type, props, features: listed_features(props) })
            },
        },
    }
}

/// What a device says of itself.
#[derive(Debug, Clone, PartialEq, Eq)]
pub struct Banner {
    pub device_type: DeviceType,
    pub props: Vec<(String, String)>,
    pub features: Vec<String>,
}

impl View for Banner {
    type V = BannerView;

    open spec fn view(&self) -> BannerView {
        BannerView {
            device_type: self.device_type.name(),
            props: pairs(self.props@),
            features: texts(self.features@),
        }
    }
}

proof fn lemma_split_all_step(s: Seq<char>, sep: char, head: Seq<char>, tail: Seq<char>)
    requires
        split_at_first(s, sep) == Some((head, tail)),
    ensures
        tail.len() < s.len(),
        split_all(s, sep) == seq![head] + split_all(tail, sep),
{
    lemma_at_first(s, sep);
}

/// `s` cut at every `sep`.
pub fn split(s: &str, sep: char) -> (parts: Vec<String>)
    ensures
        texts(parts@) == split_all(s@, sep),
{
    let mut parts: Vec<String> = Vec::new();
    let mut rest: &str = s;
    assert(texts(parts@) + split_all(rest@, sep) =~= split_all(s@, sep));
    loop
        invariant
            texts(parts@) + split_all(rest@, sep) == split_all(s@, sep),
        decreases rest@.len(),
    {
        let ghost done = parts@;
        match split_once(rest, sep) {
            None => {
                parts.push(rest.to_owned());
                assert(texts(parts@) =~= texts(done) + seq![rest@]);
                return parts;
            },
            Some((head, tail)) => {
                proof {
                    lemma_split_all_step(rest@, sep, head@, tail@);
                }
                parts.push(head.to_owned());
                assert(texts(parts@) + split_all(tail@, sep) =~= texts(done) + (seq![head@]
                    + split_all(tail@, sep)));
                rest = tail;
            },
        }
    }
}

fn find_prop<'a>(props: &'a Vec<(String, String)>, name: &str) -> (value: Option<&'a str>)
    ensures
        match value {
            Some(v) => lookup(pairs(props@), name@) == Some(v@),
            None => lookup(pairs(props@), name@) is None,
        },
{
    let ghost all = pairs(props@);
    let mut i: usize = 0;
    assert(all.skip(0) =~= all);
    while i < props.len()
        invariant
            all == pairs(props@),
            i <= props@.len(),
            lookup(all.skip(i as int), name@) == lookup(all, name@),
        decreases props@.len() - i,
    {
        assert(all.skip(i as int)[0] == all[i as int]);
        assert(all.skip(i as int).skip(1) =~= all.skip(i + 1));
        if same_text(props[i].0.as_str(), name) {
            return Some(props[i].1.as_str());
        }
        i += 1;
    }
    None
}

impl Banner {
    /// Whether the kind of device is told apart rightly.
    pub open spec fn wf(self) -> bool {
        self.device_type.wf()
    }

    /// Parses a connection string.
    pub fn parse(s: &str) -> (banner: Option<Banner>)
        ensures
            match banner {
                Some(b) => parsed_banner(s@) == Some(b@) && b.wf(),
                None => parsed_banner(s@) is None,
            },
    {
        let (kind, rest) = match split_once(s, ':') {
            Some(p) => p,
            None => {
                return None;
            },
        };
        let tail = match split_once(rest, ':') {
            Some((_, tail)) => tail,
            None => {
                return None;
            },
        };
        let pieces = split(tail, ';');
        let mut props: Vec<(String, String)> = Vec::new();
        let mut i: usize = 0;
        assert(texts(pieces@).take(0) =~= Seq::<Seq<char>>::empty());
        assert(pairs(props@) =~= properties(texts(pieces@).take(0)));
        while i < pieces.len()
            invariant
                i <= pieces@.len(),
                pairs(props@) == properties(texts(pieces@).take(i as int)),
            decreases pieces@.len() - i,
        {
            let ghost before = props@;
            let ghost all = texts(pieces@);
            assert(all.take(i + 1).drop_last() =~= all.take(i as int));
            assert(all.take(i + 1).last() == pieces@[i as int]@);
            match split_once(pieces[i].as_str(), '=') {
                Some((name, value)) => {
                    props.push((name.to_owned(), value.to_owned()));
                    assert(pairs(props@) =~= pairs(before).push((name@, value@)));
                },
                None => {},
            }
            i += 1;
        }
        assert(texts(pieces@).take(i as int) =~= texts(pieces@));
        let features: Vec<String> = match find_prop(&props, "features") {
            Some(list) => if list.is_empty() {
                Vec::new()
            } else {
                split(list, ',')
            },
            None => Vec::new(),
        };
        assert(texts(features@) =~= listed_features(pairs(props@)));
        Some(Banner { device_type: DeviceType::parse(kind), props, features })
    }

    /// Whether the device lists this feature.
    pub fn has_feature(&self, feature: &str) -> (found: bool)
        ensures
            found == self@.features.contains(feature@),
    {
        let mut i: usize = 0;
        while i < self.features.len()
            invariant
                i <= self.features@.len(),
                forall|j: int| 0 <= j < i ==> (#[trigger] self.features@[j])@ != feature@,
            decreases self.features@.len() - i,
        {
            if same_text(self.features[i].as_str(), feature) {
                assert(self@.features[i as int] == feature@);
                return true;
            }
            i += 1;
        }
        proof {
            if self@.features.contains(feature@) {
                let j = choose|j: int|
                    0 <= j < self@.features.len() && self@.features[j] == feature@;
                assert(self.features@[j]@ == feature@);
            }
        }
        false
    }

    /// The features, separated by commas.
    pub fn features_str(&self) -> (list: String)
        ensures
            list@ == joined(self@.features, ','),
    {
        let mut list = String::new();
        let mut i: usize = 0;
        let ghost all = self@.features;
        while i < self.features.len()
            invariant
                all == self@.features,
                i <= self.features@.len(),
                list@ == joined(all.take(i as int), ','),
            decreases self.features@.len() - i,
        {
            let ghost head = all.take(i + 1);
            assert(head.drop_last() =~= all.take(i as int));
            assert(head.last() == self.features@[i as int]@);
            if i > 0 {
                list.push(',');
            }
            list.append(self.features[i].as_str());
            assert(list@ =~= joined(head, ','));
            i += 1;
        }
        assert(all.take(i as int) =~= all);
        list
    }

    /// The value of a property.
    pub fn getprop<'a>(&'a self, name: &str) -> (value: Option<&'a str>)
        ensures
            match value {
                Some(v) => lookup(self@.props, name@) == Some(v@),
                None => lookup(self@.props, name@) is None,
            },
    {
        find_prop(&self.props, name)
    }
}

proof fn lemma_joined_in_front(first: Seq<char>, rest: Seq<Seq<char>>, sep: char)
    requires
        rest.len() > 0,
    ensures
        joined(seq![first] + rest, sep) == first + seq![sep] + joined(rest, sep),
    decreases rest.len(),
{
    let all = seq![first] + rest;
    assert(all.last() == rest.last());
    if rest.len() == 1 {
        assert(all.drop_last() =~= seq![first]);
        assert(joined(seq![first], sep) == first);
    } else {
        lemma_joined_in_front(first, rest.drop_last(), sep);
        assert(all.drop_last() =~= seq![first] + rest.drop_last());
        assert(joined(all, sep) =~= first + seq![sep] + joined(rest, sep));
    }
}

/// A text that is cut at every separator is put together again by separators.
pub proof fn law_split_joins_back(s: Seq<char>, sep: char)
    ensures
        split_all(s, sep).len() > 0,
        joined(split_all(s, sep), sep) == s,
    decreases s.len(),
{
    match split_at_first(s, sep) {
        None => {},
        Some((head, tail)) => {
            lemma_split_all_step(s, sep, head, tail);
            law_split_joins_back(tail, sep);
            lemma_joined_in_front(head, split_all(tail, sep), sep);
            lemma_at_first(s, sep);
            assert(head + seq![sep] + tail =~= s);
        },
    }
}

proof fn lemma_at_first(s: Seq<char>, c: char)
    ensures
        0 <= crate::text::first_index(s, c) <= s.len(),
        crate::text::first_index(s, c) < s.len() ==> s[crate::text::first_index(s, c)] == c,
    decreases s.len(),
{
    if s.len() > 0 && s[0] != c {
        lemma_at_first(s.skip(1), c);
    }
}

/// The features that a client is told are what the device's connection string
/// lists.
pub proof fn law_features_as_listed(props: Seq<(Seq<char>, Seq<char>)>, list: Seq<char>)
    requires
        lookup(props, "features"@) == Some(list),
    ensures
        joined(listed_features(props), ',') == list,
{
    if list.len() == 0 {
        assert(list =~= seq![]);
    } else {
        law_split_joins_back(list, ',');
    }
}

/// A text is cut at every separator: the parts have none in them, and with one
/// between each two of them they are the text.
pub proof fn law_parts_have_no_separator(s: &str, sep: char, parts: Vec<String>, i: int)
    requires
        call_ensures(split, (s, sep), parts),
    ensures
        parts@.len() > 0,
        0 <= i < parts@.len() ==> !parts@[i]@.contains(sep),
        joined(texts(parts@), sep) == s@,
{
    law_split_joins_back(s@, sep);
    assert(texts(parts@).len() == parts@.len());
    lemma_no_separator(s@, sep);
    if 0 <= i < parts@.len() {
        assert(texts(parts@)[i] == parts@[i]@);
    }
}

proof fn lemma_no_separator(s: Seq<char>, sep: char)
    ensures
        forall|i: int|
            0 <= i < split_all(s, sep).len() ==> !(#[trigger] split_all(s, sep)[i]).contains(sep),
    decreases s.len(),
{
    law_cut_takes_one_separator_out(s, sep);
    match split_at_first(s, sep) {
        None => {},
        Some((head, tail)) => {
            lemma_split_all_step(s, sep, head, tail);
            lemma_no_separator(tail, sep);
            let all = split_all(s, sep);
            assert forall|i: int| 0 <= i < all.len() implies !(#[trigger] all[i]).contains(sep) by {
                if i > 0 {
                    assert(all[i] == split_all(tail, sep)[i - 1]);
                }
            }
        },
    }
}

/// Texts are joined with one separator between each two of them.
pub proof fn law_joining_puts_separators_between(
    parts: Seq<Seq<char>>,
    last: Seq<char>,
    sep: char,
)
    ensures
        joined(seq![], sep).len() == 0,
        joined(seq![last], sep) == last,
        parts.len() > 0 ==> joined(parts.push(last), sep) == joined(parts, sep) + seq![sep] + last,
{
    assert(parts.push(last).drop_last() =~= parts);
}

proof fn lemma_lookup_push(
    props: Seq<(Seq<char>, Seq<char>)>,
    p: (Seq<char>, Seq<char>),
    name: Seq<char>,
)
    ensures
        lookup(props.push(p), name) == match lookup(props, name) {
            Some(v) => Some(v),
            None => if p.0 == name {
                Some(p.1)
            } else {
                None
            },
        },
    decreases props.len(),
{
    reveal_with_fuel(lookup, 2);
    let all = props.push(p);
    if props.len() == 0 {
        assert(all[0] == p);
        assert(all.skip(1) =~= seq![]);
    } else {
        assert(all.skip(1) =~= props.skip(1).push(p));
        lemma_lookup_push(props.skip(1), p, name);
    }
}

/// Whether the piece sets the property.
spec fn sets(piece: Seq<char>, name: Seq<char>) -> bool {
    has_prefix(piece, name + "="@)
}

proof fn lemma_piece(piece: Seq<char>, name: Seq<char>)
    requires
        !name.contains('='),
    ensures
        match split_at_first(piece, '=') {
            Some((n, v)) => (n == name <==> sets(piece, name)) && (n == name ==> piece == name
                + "="@ + v),
            None => !sets(piece, name),
        },
{
    reveal_strlit("=");
    assert("="@ =~= seq!['=']);
    law_cut_takes_one_separator_out(piece, '=');
    let start = name + "="@;
    if sets(piece, name) {
        let v = piece.skip(start.len() as int);
        assert(piece =~= name + seq!['='] + v);
        law_cut_at_the_first(name, '=', v);
    }
    if let Some((n, v)) = split_at_first(piece, '=') {
        if n == name {
            assert(piece.take(start.len() as int) =~= start);
        }
    }
}

proof fn lemma_properties(pieces: Seq<Seq<char>>, name: Seq<char>)
    requires
        !name.contains('='),
    ensures
        match lookup(properties(pieces), name) {
            Some(v) => exists|i: int|
                0 <= i < pieces.len() && #[trigger] pieces[i] == name + "="@ + v && forall|j: int|
                    0 <= j < i ==> !sets(#[trigger] pieces[j], name),
            None => forall|i: int| 0 <= i < pieces.len() ==> !sets(#[trigger] pieces[i], name),
        },
    decreases pieces.len(),
{
    if pieces.len() > 0 {
        let front = pieces.drop_last();
        let last = pieces.last();
        lemma_properties(front, name);
        lemma_piece(last, name);
        let before = lookup(properties(front), name);
        match split_at_first(last, '=') {
            Some(p) => {
                lemma_lookup_push(properties(front), p, name);
            },
            None => {},
        }
        match before {
            Some(v) => {
                let i = choose|i: int|
                    0 <= i < front.len() && #[trigger] front[i] == name + "="@ + v && forall|
                        j: int,
                    |
                        0 <= j < i ==> !sets(#[trigger] front[j], name);
                assert(pieces[i] == front[i]);
                assert forall|j: int| 0 <= j < i implies !sets(#[trigger] pieces[j], name) by {
                    assert(pieces[j] == front[j]);
                }
            },
            None => {
                assert forall|j: int| 0 <= j < front.len() implies !sets(
                    #[trigger] pieces[j],
                    name,
                ) by {
                    assert(pieces[j] == front[j]);
                }
                assert(pieces[front.len() as int] == last);
            },
        }
    }
}

/// A connection string says, between its colons, what kind of device it is, and
/// behind them, in pieces, what its properties are: the first piece that sets a
/// property says its value. Only a text with fewer than two colons is none.
pub proof fn law_connection_strings_say_what_they_say(
    s: &str,
    banner: Option<Banner>,
    kind: Seq<char>,
    middle: Seq<char>,
    tail: &str,
    pieces: Vec<String>,
    name: &str,
    b: &Banner,
    value: Option<&str>,
)
    requires
        call_ensures(Banner::parse, (s,), banner),
        !kind.contains(':'),
        !middle.contains(':'),
        call_ensures(split, (tail, ';'), pieces),
        banner == Some(*b),
        !name@.contains('='),
        call_ensures(Banner::getprop, (b, name), value),
    ensures
        s@ == kind + ":"@ + middle + ":"@ + tail@ ==> {
            &&& b.device_type.name() == kind
            &&& match value {
                Some(v) => exists|i: int|
                    0 <= i < pieces@.len() && #[trigger] pieces@[i]@ == name@ + "="@ + v@
                        && forall|j: int|
                        0 <= j < i ==> !has_prefix(#[trigger] pieces@[j]@, name@ + "="@),
                None => forall|i: int|
                    0 <= i < pieces@.len() ==> !has_prefix(
                        #[trigger] pieces@[i]@,
                        name@ + "="@,
                    ),
            }
        },
        s@ != kind && s@ != kind + ":"@ + middle,
{
    reveal_strlit(":");
    assert(":"@ =~= seq![':']);
    lemma_colons(kind, middle, tail@);
    if s@ == kind + ":"@ + middle + ":"@ + tail@ {
        let list = texts(pieces@);
        lemma_properties(list, name@);
        match value {
            Some(v) => {
                let i = choose|i: int|
                    0 <= i < list.len() && #[trigger] list[i] == name@ + "="@ + v@ && forall|
                        j: int,
                    |
                        0 <= j < i ==> !sets(#[trigger] list[j], name@);
                assert(pieces@[i]@ == list[i]);
                assert forall|j: int| 0 <= j < i implies !has_prefix(
                    #[trigger] pieces@[j]@,
                    name@ + "="@,
                ) by {
                    assert(!sets(list[j], name@));
                }
            },
            None => {
                assert forall|i: int| 0 <= i < pieces@.len() implies !has_prefix(
                    #[trigger] pieces@[i]@,
                    name@ + "="@,
                ) by {
                    assert(!sets(list[i], name@));
                }
            },
        }
    }
}

proof fn lemma_colons(kind: Seq<char>, middle: Seq<char>, tail: Seq<char>)
    requires
        !kind.contains(':'),
        !middle.contains(':'),
    ensures
        split_at_first(kind + ":"@ + middle + ":"@ + tail, ':') == Some(
            (kind, middle + ":"@ + tail),
        ),
        split_at_first(middle + ":"@ + tail, ':') == Some((middle, tail)),
        parsed_banner(kind) is None,
        parsed_banner(kind + ":"@ + middle) is None,
{
    reveal_strlit(":");
    assert(":"@ =~= seq![':']);
    law_cut_at_the_first(kind, ':', middle + ":"@ + tail);
    assert(kind + ":"@ + middle + ":"@ + tail =~= kind + seq![':'] + (middle + ":"@ + tail));
    law_cut_at_the_first(middle, ':', tail);
    law_cut_at_the_first(kind, ':', middle);
    lemma_uncut(kind);
    lemma_uncut(middle);
}

proof fn lemma_uncut(s: Seq<char>)
    requires
        !s.contains(':'),
    ensures
        split_at_first(s, ':') is None,
{
    law_cut_takes_one_separator_out(s, ':');
    if let Some((a, b)) = split_at_first(s, ':') {
        assert(s[a.len() as int] == ':');
    }
}

/// Every text with two colons is a connection string.
pub proof fn law_two_colons_are_enough(
    s: &str,
    banner: Option<Banner>,
    kind: Seq<char>,
    middle: Seq<char>,
    tail: Seq<char>,
)
    requires
        call_ensures(Banner::parse, (s,), banner),
        !kind.contains(':'),
        !middle.contains(':'),
    ensures
        s@ == kind + ":"@ + middle + ":"@ + tail ==> banner is Some,
        s@ == kind || s@ == kind + ":"@ + middle ==> banner is None,
{
    lemma_colons(kind, middle, tail);
}

/// A device has exactly the features that its connection string lists: the parts
/// of the property `features` between commas. They are told as they are listed.
pub proof fn law_listed_features_are_there(
    s: &str,
    banner: &Banner,
    list: Option<&str>,
    parts: Vec<String>,
    feature: &str,
    yes: bool,
    text: String,
)
    requires
        call_ensures(Banner::parse, (s,), Some(*banner)),
        call_ensures(Banner::getprop, (banner, "features"), list),
        list matches Some(l) ==> call_ensures(split, (l, ','), parts),
        call_ensures(Banner::has_feature, (banner, feature), yes),
        call_ensures(Banner::features_str, (banner,), text),
    ensures
        list is None ==> !yes && text@.len() == 0,
        list matches Some(l) ==> text@ == l@,
        list matches Some(l) ==> l@.len() > 0 ==> (yes <==> exists|i: int|
            0 <= i < parts@.len() && #[trigger] parts@[i]@ == feature@),
        list matches Some(l) ==> l@.len() == 0 ==> !yes,
{
    match list {
        Some(l) => {
            law_features_as_listed(banner@.props, l@);
            if l@.len() > 0 {
                let all = texts(parts@);
                assert(banner@.features == all);
                if all.contains(feature@) {
                    let i = choose|i: int| 0 <= i < all.len() && all[i] == feature@;
                    assert(parts@[i]@ == feature@);
                }
                if exists|i: int| 0 <= i < parts@.len() && #[trigger] parts@[i]@ == feature@ {
                    let i = choose|i: int| 0 <= i < parts@.len() && #[trigger] parts@[i]@ == feature@;
                    assert(all[i] == feature@);
                }
            }
        },
        None => {},
    }
}

/// The kind of a device is known by its name, and only a device that has booted
/// is called `device`.
pub proof fn law_kinds_are_known_by_name(name: &str, kind: DeviceType, text: String)
    requires
        call_ensures(DeviceType::parse, (name,), kind),
        call_ensures(DeviceType::text, (&kind,), text),
    ensures
        text@ == name@,
        kind is Device <==> name@ == "device"@,
{
}

} // verus!
