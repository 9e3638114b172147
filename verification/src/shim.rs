//! The program under the name of `adb`: it sees that the daemon runs, then
//! becomes the real `adb`.

use vstd::prelude::*;
use vstd::utf8::encode_utf8;
use crate::number::{decimal, digits};
use crate::text::same_text;

verus! {

/// The name under which the program stands in for the client.
pub const ADB: &'static str = "adb";

/// What stands between the parts of a path.
pub const SLASH: u8 = 0x2f;

/// What stands for the directory itself in a path.
pub const DOT: u8 = 0x2e;

/// What is wrong where the program stands in for the client.
#[derive(Debug, Clone, Copy, PartialEq, Eq)]
pub enum ShimError {
    NotALink,
    AdbNotFound,
}

impl ShimError {
    /// What is said of it.
    pub open spec fn spec_text(self) -> Seq<char> {
        match self {
            ShimError::NotALink => "must be a link for adb shim to work"@,
            ShimError::AdbNotFound => "adb not found"@,
        }
    }

    /// What is said of it.
    pub fn text(&self) -> (text: String)
        ensures
            text@ == self.spec_text(),
    {
        match self {
            ShimError::NotALink => "must be a link for adb shim to work".to_owned(),
            ShimError::AdbNotFound => "adb not found".to_owned(),
        }
    }
}

/// The program that really runs, where it was started under the name of the
/// client; nothing where it was not. `file_name` is the name under which it was
/// started, `link` where that leads, if it is a link.
pub fn adb_shim(file_name: Option<&str>, link: Option<Vec<u8>>) -> (program: Result<
    Option<Vec<u8>>,
    ShimError,
>)
    ensures
        match file_name {
            Some(name) => if name@ == ADB@ {
                match link {
                    Some(path) => program matches Ok(Some(p)) && p@ == path@,
                    None => program == Err::<Option<Vec<u8>>, _>(ShimError::NotALink),
                }
            } else {
                program matches Ok(None)
            },
            None => program matches Ok(None),
        },
{
    match file_name {
        Some(name) => if same_text(name, ADB) {
            match link {
                Some(path) => Ok(Some(path)),
                None => Err(ShimError::NotALink),
            }
        } else {
            Ok(None)
        },
        None => Ok(None),
    }
}

/// The contents of arguments.
pub open spec fn arguments(list: Seq<Vec<u8>>) -> Seq<Seq<u8>> {
    list.map_values(|bytes: Vec<u8>| bytes@)
}

/// The arguments with which the daemon is started on a socket that is open
/// already.
pub fn daemon_args(bin: &Vec<u8>, fd: u32) -> (args: Vec<Vec<u8>>)
    ensures
        arguments(args@) == seq![
            bin@,
            encode_utf8("server"@),
            encode_utf8("--daemon"@),
            encode_utf8("--fd"@),
            encode_utf8(digits(fd as int, 10)),
        ],
{
    let mut args: Vec<Vec<u8>> = Vec::new();
    args.push(vstd::slice::slice_to_vec(bin.as_slice()));
    args.push("server".as_bytes_vec());
    args.push("--daemon".as_bytes_vec());
    args.push("--fd".as_bytes_vec());
    let text = decimal(fd as u64);
    args.push(text.as_str().as_bytes_vec());
    assert(arguments(args@) =~= seq![
        bin@,
        encode_utf8("server"@),
        encode_utf8("--daemon"@),
        encode_utf8("--fd"@),
        encode_utf8(digits(fd as int, 10)),
    ]);
    args
}

fn same_bytes(a: &Vec<u8>, b: &Vec<u8>) -> (same: bool)
    ensures
        same == (a@ == b@),
{
    if a.len() != b.len() {
        return false;
    }
    let mut i: usize = 0;
    while i < a.len()
        invariant
            i <= a@.len() == b@.len(),
            forall|j: int| 0 <= j < i ==> a@[j] == b@[j],
        decreases a@.len() - i,
    {
        if a[i] != b[i] {
            assert(a@[i as int] != b@[i as int]);
            return false;
        }
        i += 1;
    }
    assert(a@ =~= b@);
    true
}

/// The parts of a path between its slashes.
pub open spec fn parts(path: Seq<u8>) -> Seq<Seq<u8>>
    decreases path.len(),
{
    if path.len() == 0 {
        seq![Seq::empty()]
    } else {
        let before = parts(path.drop_last());
        if path.last() == SLASH {
            before.push(Seq::empty())
        } else {
            before.drop_last().push(before.last().push(path.last()))
        }
    }
}

/// Whether the part of a path stands for the directory itself.
pub open spec fn is_here(part: Seq<u8>) -> bool {
    part == seq![DOT]
}

/// Whether the part of a path leads anywhere.
pub open spec fn is_step(part: Seq<u8>) -> bool {
    part.len() > 0 && !is_here(part)
}

/// What a path is made of, however it is spelled.
pub struct PathView {
    /// Whether it starts at the root.
    pub rooted: bool,
    /// Whether it says of itself that it starts where one is.
    pub here: bool,
    /// The names that it leads along.
    pub steps: Seq<Seq<u8>>,
}

/// What the path is made of: slashes that follow each other count as one, the
/// last one does not count, and neither does a dot behind the start.
pub open spec fn components(path: Seq<u8>) -> PathView {
    PathView {
        rooted: path.len() > 0 && path[0] == SLASH,
        here: is_here(parts(path)[0]),
        steps: parts(path).filter(|part: Seq<u8>| is_step(part)),
    }
}

proof fn lemma_there_are_parts(path: Seq<u8>)
    ensures
        parts(path).len() > 0,
    decreases path.len(),
{
    if path.len() > 0 {
        lemma_there_are_parts(path.drop_last());
    }
}

/// The parts of a path between its slashes.
fn split(path: &Vec<u8>) -> (list: Vec<Vec<u8>>)
    ensures
        arguments(list@) == parts(path@),
        list@.len() > 0,
{
    let mut list: Vec<Vec<u8>> = Vec::new();
    let mut part: Vec<u8> = Vec::new();
    let mut i: usize = 0;
    assert(arguments(list@).push(part@) =~= parts(path@.take(0)));
    while i < path.len()
        invariant
            i <= path@.len(),
            arguments(list@).push(part@) == parts(path@.take(i as int)),
        decreases path@.len() - i,
    {
        let ghost before = arguments(list@);
        let ghost last = part@;
        assert(path@.take(i + 1).drop_last() =~= path@.take(i as int));
        assert(before.push(last).drop_last() =~= before);
        let byte = path[i];
        if byte == SLASH {
            list.push(part);
            part = Vec::new();
            assert(arguments(list@) =~= before.push(last));
        } else {
            part.push(byte);
        }
        assert(arguments(list@).push(part@) =~= parts(path@.take(i + 1)));
        i += 1;
    }
    assert(path@.take(i as int) =~= path@);
    let ghost before = arguments(list@);
    let ghost last = part@;
    list.push(part);
    assert(arguments(list@) =~= before.push(last));
    list
}

fn is_dot(part: &Vec<u8>) -> (yes: bool)
    ensures
        yes == is_here(part@),
{
    let yes = part.len() == 1 && part[0] == DOT;
    assert(yes ==> part@ =~= seq![DOT]);
    yes
}

/// The parts that lead anywhere.
fn steps_of(list: &Vec<Vec<u8>>) -> (steps: Vec<Vec<u8>>)
    ensures
        arguments(steps@) == arguments(list@).filter(|part: Seq<u8>| is_step(part)),
{
    let ghost leads = |part: Seq<u8>| is_step(part);
    let ghost all = arguments(list@);
    let mut steps: Vec<Vec<u8>> = Vec::new();
    let mut i: usize = 0;
    proof {
        reveal(Seq::filter);
    }
    assert(arguments(steps@) =~= all.take(0).filter(leads));
    while i < list.len()
        invariant
            all == arguments(list@),
            leads == (|part: Seq<u8>| is_step(part)),
            i <= list@.len(),
            arguments(steps@) == all.take(i as int).filter(leads),
        decreases list@.len() - i,
    {
        proof {
            reveal(Seq::filter);
        }
        let ghost before = arguments(steps@);
        assert(all.take(i + 1).drop_last() =~= all.take(i as int));
        assert(all.take(i + 1).last() == list@[i as int]@);
        if list[i].len() > 0 && !is_dot(&list[i]) {
            steps.push(vstd::slice::slice_to_vec(list[i].as_slice()));
            assert(arguments(steps@) =~= before.push(list@[i as int]@));
        }
        i += 1;
    }
    assert(all.take(i as int) =~= all);
    steps
}

/// Whether two paths are made of the same.
pub fn same_path(a: &Vec<u8>, b: &Vec<u8>) -> (same: bool)
    ensures
        same == (components(a@) == components(b@)),
{
    let a_parts = split(a);
    let b_parts = split(b);
    let a_rooted = a.len() > 0 && a[0] == SLASH;
    let b_rooted = b.len() > 0 && b[0] == SLASH;
    if a_rooted != b_rooted || is_dot(&a_parts[0]) != is_dot(&b_parts[0]) {
        return false;
    }
    let a_steps = steps_of(&a_parts);
    let b_steps = steps_of(&b_parts);
    let ghost x = components(a@).steps;
    let ghost y = components(b@).steps;
    assert(x == arguments(a_steps@) && y == arguments(b_steps@));
    if a_steps.len() != b_steps.len() {
        assert(x.len() != y.len());
        return false;
    }
    let mut i: usize = 0;
    while i < a_steps.len()
        invariant
            x == components(a@).steps,
            y == components(b@).steps,
            x == arguments(a_steps@),
            y == arguments(b_steps@),
            i <= a_steps@.len() == b_steps@.len(),
            forall|j: int| 0 <= j < i ==> x[j] == y[j],
        decreases a_steps@.len() - i,
    {
        assert(x[i as int] == a_steps@[i as int]@ && y[i as int] == b_steps@[i as int]@);
        if !same_bytes(&a_steps[i], &b_steps[i]) {
            assert(x[i as int] != y[i as int]);
            return false;
        }
        i += 1;
    }
    assert(x =~= y);
    true
}

/// The first program that is not this one, however it is spelled.
pub open spec fn first_other(found: Seq<Seq<u8>>, exe: Seq<u8>) -> Option<Seq<u8>>
    decreases found.len(),
{
    if found.len() == 0 {
        None
    } else if components(found[0]) != components(exe) {
        Some(found[0])
    } else {
        first_other(found.skip(1), exe)
    }
}

/// The real client, among the programs of its name that were found.
pub fn real_adb(found: &Vec<Vec<u8>>, exe: &Vec<u8>) -> (path: Result<Vec<u8>, ShimError>)
    ensures
        match first_other(arguments(found@), exe@) {
            Some(p) => path matches Ok(v) && v@ == p,
            None => path == Err::<Vec<u8>, _>(ShimError::AdbNotFound),
        },
{
    let ghost all = arguments(found@);
    let mut i: usize = 0;
    assert(all.skip(0) =~= all);
    while i < found.len()
        invariant
            all == arguments(found@),
            i <= found@.len(),
            first_other(all, exe@) == first_other(all.skip(i as int), exe@),
        decreases found@.len() - i,
    {
        assert(all.skip(i as int)[0] == found@[i as int]@);
        assert(all.skip(i as int).skip(1) =~= all.skip(i + 1));
        if !same_path(&found[i], exe) {
            return Ok(vstd::slice::slice_to_vec(found[i].as_slice()));
        }
        i += 1;
    }
    Err(ShimError::AdbNotFound)
}

/// The arguments of the real client: its own path, then those that this
/// program was started with, without its name.
pub fn client_args(bin: &Vec<u8>, args: &Vec<Vec<u8>>) -> (list: Vec<Vec<u8>>)
    ensures
        arguments(list@) == seq![bin@] + if args@.len() > 0 {
            arguments(args@).skip(1)
        } else {
            seq![]
        },
{
    let ghost all = arguments(args@);
    let mut list: Vec<Vec<u8>> = Vec::new();
    list.push(vstd::slice::slice_to_vec(bin.as_slice()));
    let mut i: usize = 1;
    assert(arguments(list@) =~= seq![bin@]);
    while i < args.len()
        invariant
            all == arguments(args@),
            1 <= i,
            i <= args@.len() || i == 1,
            arguments(list@) == seq![bin@] + if args@.len() > 0 {
                all.subrange(1, i as int)
            } else {
                seq![]
            },
        decreases args@.len() - i,
    {
        let ghost done = arguments(list@);
        list.push(vstd::slice::slice_to_vec(args[i].as_slice()));
        assert(arguments(list@) =~= done.push(all[i as int]));
        i += 1;
        assert(all.subrange(1, i as int) =~= all.subrange(1, i - 1).push(all[i - 1]));
    }
    proof {
        if args@.len() > 0 {
            assert(all.subrange(1, i as int) =~= all.skip(1));
        }
    }
    list
}

/// The client that is started is one that was found and never this program,
/// however the path of either is spelled. None is started only where every
/// program that was found is this one.
pub proof fn law_shim_does_not_start_itself(found: Seq<Seq<u8>>, exe: Seq<u8>)
    ensures
        match first_other(found, exe) {
            Some(p) => found.contains(p) && components(p) != components(exe),
            None => forall|i: int|
                0 <= i < found.len() ==> components(#[trigger] found[i]) == components(exe),
        },
    decreases found.len(),
{
    if found.len() > 0 && components(found[0]) == components(exe) {
        let rest = found.skip(1);
        law_shim_does_not_start_itself(rest, exe);
        match first_other(rest, exe) {
            Some(p) => {
                let i = choose|i: int| 0 <= i < rest.len() && rest[i] == p;
                assert(found[i + 1] == p);
            },
            None => {
                assert forall|i: int| 0 <= i < found.len() implies components(#[trigger] found[i])
                    == components(exe) by {
                    if i > 0 {
                        assert(rest[i - 1] == found[i]);
                    }
                }
            },
        }
    } else if found.len() > 0 {
        assert(found.contains(found[0]));
    }
}

proof fn lemma_parts_of_joined(a: Seq<u8>, b: Seq<u8>)
    ensures
        parts(a.push(SLASH) + b) == parts(a) + parts(b),
    decreases b.len(),
{
    let whole = a.push(SLASH) + b;
    lemma_there_are_parts(b);
    if b.len() == 0 {
        assert(whole =~= a.push(SLASH));
        assert(whole.drop_last() =~= a);
        assert(parts(whole) =~= parts(a) + parts(b));
    } else {
        lemma_parts_of_joined(a, b.drop_last());
        lemma_there_are_parts(b.drop_last());
        assert(whole.drop_last() =~= a.push(SLASH) + b.drop_last());
        assert(whole.last() == b.last());
        assert(parts(whole) =~= parts(a) + parts(b));
    }
}

proof fn lemma_idle_part(a: Seq<u8>, idle: Seq<u8>, b: Seq<u8>)
    requires
        !is_step(idle),
        parts(idle) == seq![idle],
    ensures
        components(a.push(SLASH) + idle.push(SLASH) + b) == components(a.push(SLASH) + b),
{
    let leads = |part: Seq<u8>| is_step(part);
    let front = a.push(SLASH) + idle;
    lemma_parts_of_joined(a, idle);
    lemma_parts_of_joined(front, b);
    lemma_parts_of_joined(a, b);
    lemma_there_are_parts(a);
    lemma_there_are_parts(b);
    assert(a.push(SLASH) + idle.push(SLASH) + b =~= front.push(SLASH) + b);
    assert(parts(front) =~= parts(a).push(idle));
    parts(a).lemma_filter_push(idle, leads);
    Seq::filter_distributes_over_add(parts(front), parts(b), leads);
    Seq::filter_distributes_over_add(parts(a), parts(b), leads);
}

/// How a path is spelled does not matter: neither a slash more between its
/// parts, nor a dot between them, nor a slash at its end.
pub proof fn law_spelling_does_not_matter(a: Seq<u8>, b: Seq<u8>)
    ensures
        components(a.push(SLASH).push(SLASH) + b) == components(a.push(SLASH) + b),
        components(a.push(SLASH).push(DOT).push(SLASH) + b) == components(a.push(SLASH) + b),
        a.len() > 0 ==> components(a.push(SLASH)) == components(a),
{
    reveal_with_fuel(parts, 2);
    let leads = |part: Seq<u8>| is_step(part);
    let none: Seq<u8> = Seq::empty();
    let dot = seq![DOT];
    lemma_idle_part(a, none, b);
    assert(a.push(SLASH) + none.push(SLASH) + b =~= a.push(SLASH).push(SLASH) + b);
    assert(dot.drop_last() =~= none);
    assert(parts(dot) =~= seq![dot]);
    lemma_idle_part(a, dot, b);
    assert(a.push(SLASH) + dot.push(SLASH) + b =~= a.push(SLASH).push(DOT).push(SLASH) + b);
    lemma_parts_of_joined(a, none);
    lemma_there_are_parts(a);
    assert(a.push(SLASH) + none =~= a.push(SLASH));
    assert(parts(a.push(SLASH)) =~= parts(a).push(none));
    parts(a).lemma_filter_push(none, leads);
}

/// The program stands in for the client exactly if it was started under its name,
/// and must be reached through a link, which says what it really is.
pub proof fn law_only_adb_is_stood_in_for(
    name: &str,
    link: Option<Vec<u8>>,
    program: Result<Option<Vec<u8>>, ShimError>,
    without: Result<Option<Vec<u8>>, ShimError>,
)
    requires
        call_ensures(adb_shim, (Some(name), link), program),
        call_ensures(adb_shim, (None, link), without),
    ensures
        without matches Ok(None),
        name@ != seq!['a', 'd', 'b'] ==> (program matches Ok(None)),
        name@ == seq!['a', 'd', 'b'] ==> match link {
            Some(path) => program matches Ok(Some(p)) && p@ == path@,
            None => program matches Err(ShimError::NotALink),
        },
{
    reveal_strlit("adb");
    assert("adb"@ =~= seq!['a', 'd', 'b']);
}

/// The daemon is started as itself, as a server in the background, on the socket.
pub proof fn law_the_daemon_is_told_its_socket(
    bin: &Vec<u8>,
    fd: u32,
    args: Vec<Vec<u8>>,
    number: String,
)
    requires
        call_ensures(daemon_args, (bin, fd), args),
        call_ensures(decimal, (fd as u64,), number),
    ensures
        args@.len() == 5,
        args@[0]@ == bin@,
        args@[1]@ == encode_utf8("server"@),
        args@[2]@ == encode_utf8("--daemon"@),
        args@[3]@ == encode_utf8("--fd"@),
        args@[4]@ == encode_utf8(number@),
{
    let list = arguments(args@);
    assert(list.len() == args@.len());
    assert(list[0] == args@[0]@);
    assert(list[1] == args@[1]@);
    assert(list[2] == args@[2]@);
    assert(list[3] == args@[3]@);
    assert(list[4] == args@[4]@);
}

/// The client gets its own path and then every argument that this program got,
/// each in its place.
pub proof fn law_the_client_gets_every_argument(
    bin: &Vec<u8>,
    args: &Vec<Vec<u8>>,
    list: Vec<Vec<u8>>,
)
    requires
        call_ensures(client_args, (bin, args), list),
    ensures
        list@.len() == if args@.len() > 0 {
            args@.len() as int
        } else {
            1
        },
        list@[0]@ == bin@,
        forall|i: int| 1 <= i < args@.len() ==> (#[trigger] list@[i])@ == args@[i]@,
{
    let out = arguments(list@);
    assert(out.len() == list@.len());
    assert(out[0] == list@[0]@);
    assert forall|i: int| 1 <= i < args@.len() implies (#[trigger] list@[i])@ == args@[i]@ by {
        assert(out[i] == list@[i]@);
        assert(arguments(args@)[i] == args@[i]@);
    }
}

/// The client is the first program that was found whose path is not that of this
/// one.
pub proof fn law_the_first_other_program_is_the_client(
    found: &Vec<Vec<u8>>,
    exe: &Vec<u8>,
    same: Seq<bool>,
    path: Result<Vec<u8>, ShimError>,
)
    requires
        same.len() == found@.len(),
        forall|i: int|
            0 <= i < found@.len() ==> call_ensures(same_path, (&found@[i], exe), #[trigger] same[i]),
        call_ensures(real_adb, (found, exe), path),
    ensures
        match path {
            Ok(p) => exists|i: int|
                0 <= i < found@.len() && !(#[trigger] same[i]) && p@ == found@[i]@ && forall|j: int|
                    0 <= j < i ==> #[trigger] same[j],
            Err(e) => e == ShimError::AdbNotFound && forall|j: int|
                0 <= j < same.len() ==> #[trigger] same[j],
        },
{
    let all = arguments(found@);
    assert(all.len() == found@.len());
    assert forall|i: int| 0 <= i < all.len() implies #[trigger] same[i] == (components(all[i])
        == components(exe@)) by {
        assert(all[i] == found@[i]@);
    }
    lemma_first_other(all, exe@, same);
    if let Ok(p) = path {
        let i = choose|i: int|
            0 <= i < all.len() && !(#[trigger] same[i]) && first_other(all, exe@) == Some(all[i])
                && forall|j: int| 0 <= j < i ==> #[trigger] same[j];
        assert(all[i] == found@[i]@);
    }
}

proof fn lemma_first_other(found: Seq<Seq<u8>>, exe: Seq<u8>, same: Seq<bool>)
    requires
        same.len() == found.len(),
        forall|i: int|
            0 <= i < found.len() ==> #[trigger] same[i] == (components(found[i]) == components(
                exe,
            )),
    ensures
        match first_other(found, exe) {
            Some(p) => exists|i: int|
                0 <= i < found.len() && !(#[trigger] same[i]) && p == found[i] && forall|j: int|
                    0 <= j < i ==> #[trigger] same[j],
            None => forall|j: int| 0 <= j < same.len() ==> #[trigger] same[j],
        },
    decreases found.len(),
{
    if found.len() > 0 {
        assert(same[0] == (components(found[0]) == components(exe)));
        if same[0] {
            let rest = found.skip(1);
            let more = same.skip(1);
            assert forall|i: int| 0 <= i < rest.len() implies #[trigger] more[i] == (components(
                rest[i],
            ) == components(exe)) by {
                assert(same[i + 1] == more[i] && rest[i] == found[i + 1]);
            }
            lemma_first_other(rest, exe, more);
            match first_other(rest, exe) {
                Some(p) => {
                    let i = choose|i: int|
                        0 <= i < rest.len() && !(#[trigger] more[i]) && p == rest[i] && forall|
                            j: int,
                        |
                            0 <= j < i ==> #[trigger] more[j];
                    assert(same[i + 1] == more[i] && rest[i] == found[i + 1]);
                    assert forall|j: int| 0 <= j < i + 1 implies #[trigger] same[j] by {
                        if j > 0 {
                            assert(more[j - 1]);
                        }
                    }
                },
                None => {
                    assert forall|j: int| 0 <= j < same.len() implies #[trigger] same[j] by {
                        if j > 0 {
                            assert(more[j - 1]);
                        }
                    }
                },
            }
        }
    }
}

/// Whether it can be the name of a file.
pub open spec fn is_file_name(name: Seq<u8>) -> bool {
    &&& name.len() > 0
    &&& name != seq!['.' as u8]
    &&& forall|i: int| 0 <= i < name.len() ==> name[i] != '/' as u8
}

proof fn lemma_single_part(name: Seq<u8>)
    requires
        forall|i: int| 0 <= i < name.len() ==> name[i] != SLASH,
    ensures
        parts(name) == seq![name],
    decreases name.len(),
{
    if name.len() > 0 {
        lemma_single_part(name.drop_last());
        assert(name.drop_last().push(name.last()) =~= name);
        assert(parts(name) =~= seq![name]);
    } else {
        assert(name =~= Seq::empty());
        assert(parts(name) =~= seq![name]);
    }
}

/// Two paths are the same only if they lead to the same name in the same
/// directory: in one directory two names are two paths, under one name two
/// directories are, and a path from the root is none from elsewhere.
pub proof fn law_paths_lead_to_names(
    dir: Seq<u8>,
    other: Seq<u8>,
    a: Seq<u8>,
    b: Seq<u8>,
    x: &Vec<u8>,
    y: &Vec<u8>,
    same: bool,
)
    requires
        is_file_name(a),
        is_file_name(b),
        x@ == dir.push('/' as u8) + a,
        y@ == other.push('/' as u8) + b,
        call_ensures(same_path, (x, y), same),
    ensures
        same ==> a == b,
        a == b && dir == other ==> same,
        same && dir.len() > 0 && other.len() > 0 ==> (dir[0] == '/' as u8) == (other[0]
            == '/' as u8),
        a == b && dir.len() > 0 && other.len() > 0 ==> same == (components(dir) == components(
            other,
        )),
{
    let leads = |part: Seq<u8>| is_step(part);
    lemma_single_part(a);
    lemma_single_part(b);
    lemma_parts_of_joined(dir, a);
    lemma_parts_of_joined(other, b);
    lemma_there_are_parts(dir);
    lemma_there_are_parts(other);
    assert(parts(x@) =~= parts(dir).push(a));
    assert(parts(y@) =~= parts(other).push(b));
    parts(dir).lemma_filter_push(a, leads);
    parts(other).lemma_filter_push(b, leads);
    let p = parts(dir).filter(leads);
    let q = parts(other).filter(leads);
    assert(p.push(a).last() == a && q.push(b).last() == b);
    assert(p.push(a).drop_last() =~= p);
    assert(q.push(b).drop_last() =~= q);
    assert(components(x@).steps == p.push(a));
    assert(components(y@).steps == q.push(b));
    assert(parts(x@)[0] == parts(dir)[0] && parts(y@)[0] == parts(other)[0]);
    if dir.len() > 0 {
        assert(x@[0] == dir[0]);
    }
    if other.len() > 0 {
        assert(y@[0] == other[0]);
    }
}

/// A name alone is neither the same as the name at the root, nor as the name with
/// a dot before it; but slashes and dots behind the start, and a slash at the end,
/// make no difference.
pub proof fn law_where_a_path_starts_matters(
    name: &Vec<u8>,
    rooted: &Vec<u8>,
    here: &Vec<u8>,
    a: Seq<u8>,
    b: Seq<u8>,
    x: &Vec<u8>,
    y: &Vec<u8>,
    z: &Vec<u8>,
    w: &Vec<u8>,
    first: bool,
    second: bool,
    third: bool,
    fourth: bool,
    fifth: bool,
)
    requires
        is_file_name(name@),
        rooted@ == seq!['/' as u8] + name@,
        here@ == seq!['.' as u8, '/' as u8] + name@,
        call_ensures(same_path, (name, rooted), first),
        call_ensures(same_path, (name, here), second),
        x@ == a + seq!['/' as u8] + b,
        y@ == a + seq!['/' as u8, '/' as u8] + b,
        z@ == a + seq!['/' as u8, '.' as u8, '/' as u8] + b,
        w@ == name@.push('/' as u8),
        call_ensures(same_path, (x, y), third),
        call_ensures(same_path, (z, x), fourth),
        call_ensures(same_path, (name, w), fifth),
    ensures
        !first,
        !second,
        third,
        fourth,
        fifth,
{
    lemma_single_part(name@);
    lemma_single_part(seq![DOT]);
    lemma_parts_of_joined(seq![DOT], name@);
    assert(here@ =~= seq![DOT].push(SLASH) + name@);
    assert(parts(here@)[0] == seq![DOT]);
    assert(parts(name@)[0] == name@);
    assert(rooted@[0] == SLASH);
    law_spelling_does_not_matter(a, b);
    law_spelling_does_not_matter(name@, b);
    assert(x@ =~= a.push(SLASH) + b);
    assert(y@ =~= a.push(SLASH).push(SLASH) + b);
    assert(z@ =~= a.push(SLASH).push(DOT).push(SLASH) + b);
}

/// What is wrong where the program stands in for the client has its words.
pub proof fn law_shim_errors_have_their_words(link: String, found: String)
    requires
        call_ensures(ShimError::text, (&ShimError::NotALink,), link),
        call_ensures(ShimError::text, (&ShimError::AdbNotFound,), found),
    ensures
        link@ == "must be a link for adb shim to work"@,
        found@ == "adb not found"@,
{
}

} // verus!
