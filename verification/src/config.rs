//! The per-FMU configuration descriptor and the command line of a slave
//! process. A resource directory holds a small descriptor file — a JSON
//! object among whose string members `slave_script` and `slave_class` name
//! the script and the class a spawned slave must load. The descriptor is
//! read once at instantiation; this module fixes its grammar exactly and
//! parses it with a verified parser. Member order is free, whitespace is
//! free, unknown members are ignored, and either named member given twice
//! is an error. The grammar is deliberately tighter than full JSON: every
//! member value is a plain string without escape sequences.

use crate::wire::bytes_views;
use vstd::string::StringSliceAdditionalSpecFns;
use vstd::string::StrSliceExecFns;
use vstd::prelude::*;

verus! {

/// Names which script and class a spawned slave process must load;
/// read once from the resource directory, immutable afterwards.
pub struct SlaveConfiguration {
    pub slave_script: Vec<u8>,
    pub slave_class: Vec<u8>,
}

/// JSON whitespace.
pub open spec fn is_json_ws(c: u8) -> bool {
    c == 32 || c == 9 || c == 10 || c == 13
}

/// The suffix that remains after leading whitespace.
pub open spec fn spec_skip_ws(b: Seq<u8>) -> Seq<u8>
    decreases b.len(),
{
    if b.len() > 0 && is_json_ws(b[0]) {
        spec_skip_ws(b.skip(1))
    } else {
        b
    }
}

/// The content of a string body up to its closing quote, and what follows
/// the quote. A string body may hold any byte except a quote or a
/// backslash: the descriptor grammar has no escape sequences.
pub open spec fn spec_scan_string(b: Seq<u8>) -> Option<(Seq<u8>, Seq<u8>)>
    decreases b.len(),
{
    if b.len() == 0 {
        None
    } else if b[0] == 34 {
        Some((Seq::empty(), b.skip(1)))
    } else if b[0] == 92 {
        None
    } else {
        match spec_scan_string(b.skip(1)) {
            Some((s, rest)) => Some((seq![b[0]] + s, rest)),
            None => None,
        }
    }
}

/// A quoted string: an opening quote, a body, a closing quote.
pub open spec fn spec_parse_string(b: Seq<u8>) -> Option<(Seq<u8>, Seq<u8>)> {
    if b.len() > 0 && b[0] == 34 {
        spec_scan_string(b.skip(1))
    } else {
        None
    }
}

/// One `"key": "value"` member, with free whitespace; the key, the value,
/// and what follows the value.
pub open spec fn spec_parse_member(b: Seq<u8>) -> Option<(Seq<u8>, Seq<u8>, Seq<u8>)> {
    match spec_parse_string(spec_skip_ws(b)) {
        Some((key, r0)) => {
            let r1 = spec_skip_ws(r0);
            if r1.len() > 0 && r1[0] == 58 {
                match spec_parse_string(spec_skip_ws(r1.skip(1))) {
                    Some((value, r2)) => Some((key, value, r2)),
                    None => None,
                }
            } else {
                None
            }
        },
        None => None,
    }
}

/// A comma-separated member list: at least one member, each a
/// `"key": "value"` pair. The recursion is bounded by `fuel`; the
/// descriptor grammar hands it the input's length, which a member list
/// can never outrun since every member and separator consumes input.
pub open spec fn spec_parse_members(b: Seq<u8>, fuel: nat) -> Option<
    (Seq<(Seq<u8>, Seq<u8>)>, Seq<u8>),
>
    decreases fuel,
{
    match spec_parse_member(b) {
        Some((key, value, r0)) => {
            let r1 = spec_skip_ws(r0);
            if r1.len() > 0 && r1[0] == 44 {
                if fuel == 0 {
                    None
                } else {
                    match spec_parse_members(r1.skip(1), (fuel - 1) as nat) {
                        Some((rest_members, r2)) => Some((seq![(key, value)] + rest_members, r2)),
                        None => None,
                    }
                }
            } else {
                Some((seq![(key, value)], r0))
            }
        },
        None => None,
    }
}

/// How many members of `ms` carry the key.
pub open spec fn key_count(ms: Seq<(Seq<u8>, Seq<u8>)>, key: Seq<u8>) -> nat
    decreases ms.len(),
{
    if ms.len() == 0 {
        0
    } else {
        (if ms[0].0 == key {
            1nat
        } else {
            0nat
        }) + key_count(ms.skip(1), key)
    }
}

/// The value of the first member carrying the key; meaningful when the
/// key occurs.
pub open spec fn value_of(ms: Seq<(Seq<u8>, Seq<u8>)>, key: Seq<u8>) -> Seq<u8>
    decreases ms.len(),
{
    if ms.len() == 0 {
        Seq::empty()
    } else if ms[0].0 == key {
        ms[0].1
    } else {
        value_of(ms.skip(1), key)
    }
}

/// The whole descriptor: an object of string members, nothing after the
/// closing brace, holding `slave_script` and `slave_class` each exactly
/// once, anywhere among members whose other keys are ignored. The result
/// is the pair (script, class).
pub open spec fn spec_parse_descriptor(b: Seq<u8>) -> Option<(Seq<u8>, Seq<u8>)> {
    let b0 = spec_skip_ws(b);
    if b0.len() > 0 && b0[0] == 123 {
        match spec_parse_members(b0.skip(1), b.len()) {
            Some((ms, r)) => {
                let rs = spec_skip_ws(r);
                if rs.len() > 0 && rs[0] == 125 && spec_skip_ws(rs.skip(1)).len() == 0 {
                    if key_count(ms, "slave_script".spec_bytes()) == 1 && key_count(
                        ms,
                        "slave_class".spec_bytes(),
                    ) == 1 {
                        Some(
                            (
                                value_of(ms, "slave_script".spec_bytes()),
                                value_of(ms, "slave_class".spec_bytes()),
                            ),
                        )
                    } else {
                        None
                    }
                } else {
                    None
                }
            },
            None => None,
        }
    } else {
        None
    }
}

/// Compares two byte strings.
pub fn bytes_eq(a: &Vec<u8>, b: &Vec<u8>) -> (r: bool)
    ensures
        r == (a@ == b@),
{
    if a.len() != b.len() {
        return false;
    }
    let mut i: usize = 0;
    while i < a.len()
        invariant
            a@.len() == b@.len(),
            i <= a@.len(),
            forall|j: int| 0 <= j < i ==> a@[j] == b@[j],
        decreases a@.len() - i,
    {
        if a[i] != b[i] {
            return false;
        }
        i += 1;
    }
    proof {
        assert(a@ =~= b@);
    }
    true
}

fn skip_ws(b: &Vec<u8>, pos: usize) -> (next: usize)
    requires
        pos <= b@.len(),
    ensures
        pos <= next <= b@.len(),
        spec_skip_ws(b@.skip(pos as int)) == b@.skip(next as int),
{
    let mut cur: usize = pos;
    while cur < b.len() && is_ws_byte(b[cur])
        invariant
            pos <= cur <= b@.len(),
            spec_skip_ws(b@.skip(pos as int)) == spec_skip_ws(b@.skip(cur as int)),
        decreases b@.len() - cur,
    {
        proof {
            assert(b@.skip(cur as int)[0] == b@[cur as int]);
            assert(b@.skip(cur as int).skip(1) =~= b@.skip(cur as int + 1));
        }
        cur += 1;
    }
    proof {
        if cur < b@.len() {
            assert(b@.skip(cur as int)[0] == b@[cur as int]);
        } else {
            assert(b@.skip(cur as int).len() == 0);
        }
        assert(spec_skip_ws(b@.skip(cur as int)) == b@.skip(cur as int));
    }
    cur
}

fn is_ws_byte(c: u8) -> (r: bool)
    ensures
        r == is_json_ws(c),
{
    c == 32 || c == 9 || c == 10 || c == 13
}

/// Maps a scanned tail through already-scanned content.
pub open spec fn spec_prepend_scan(
    prefix: Seq<u8>,
    r: Option<(Seq<u8>, Seq<u8>)>,
) -> Option<(Seq<u8>, Seq<u8>)> {
    match r {
        Some((s, rest)) => Some((prefix + s, rest)),
        None => None,
    }
}

fn parse_string(b: &Vec<u8>, pos: usize) -> (r: Option<(Vec<u8>, usize)>)
    requires
        pos <= b@.len(),
    ensures
        (match r {
            Some((s, next)) => {
                &&& pos <= next <= b@.len()
                &&& spec_parse_string(b@.skip(pos as int)) == Some((s@, b@.skip(next as int)))
            },
            None => spec_parse_string(b@.skip(pos as int)) is None,
        }),
{
    if pos >= b.len() || b[pos] != 34 {
        proof {
            if pos < b@.len() {
                assert(b@.skip(pos as int)[0] == b@[pos as int]);
            }
        }
        return None;
    }
    proof {
        assert(b@.skip(pos as int)[0] == b@[pos as int]);
        assert(b@.skip(pos as int).skip(1) =~= b@.skip(pos as int + 1));
    }
    let start = pos + 1;
    let mut acc: Vec<u8> = Vec::new();
    let mut cur: usize = start;
    loop
        invariant
            pos < b@.len(),
            b@[pos as int] == 34,
            start == pos + 1,
            start <= cur <= b@.len(),
            spec_scan_string(b@.skip(start as int)) == spec_prepend_scan(
                acc@,
                spec_scan_string(b@.skip(cur as int)),
            ),
        decreases b@.len() - cur,
    {
        proof {
            assert(b@.skip(pos as int)[0] == b@[pos as int]);
            assert(b@.skip(pos as int).skip(1) =~= b@.skip(start as int));
        }
        if cur >= b.len() {
            proof {
                assert(b@.skip(cur as int).len() == 0);
                assert(spec_scan_string(b@.skip(cur as int)) is None);
            }
            return None;
        }
        let c = b[cur];
        proof {
            assert(b@.skip(cur as int)[0] == b@[cur as int]);
            assert(b@.skip(cur as int).skip(1) =~= b@.skip(cur as int + 1));
        }
        if c == 34 {
            proof {
                assert(spec_scan_string(b@.skip(cur as int)) == Some(
                    (Seq::<u8>::empty(), b@.skip(cur as int + 1)),
                ));
                assert(acc@ + Seq::<u8>::empty() =~= acc@);
            }
            return Some((acc, cur + 1));
        }
        if c == 92 {
            proof {
                assert(spec_scan_string(b@.skip(cur as int)) is None);
            }
            return None;
        }
        let ghost acc_pre = acc@;
        acc.push(c);
        proof {
            let tail = spec_scan_string(b@.skip(cur as int + 1));
            assert(spec_scan_string(b@.skip(cur as int)) == spec_prepend_scan(seq![c], tail));
            match tail {
                Some((s, rest)) => {
                    assert(acc_pre + (seq![c] + s) =~= acc@ + s);
                },
                None => {},
            }
        }
        cur += 1;
    }
}

fn parse_member(b: &Vec<u8>, pos: usize) -> (r: Option<(Vec<u8>, Vec<u8>, usize)>)
    requires
        pos <= b@.len(),
    ensures
        (match r {
            Some((key, value, next)) => {
                &&& pos <= next <= b@.len()
                &&& spec_parse_member(b@.skip(pos as int)) == Some(
                    (key@, value@, b@.skip(next as int)),
                )
            },
            None => spec_parse_member(b@.skip(pos as int)) is None,
        }),
{
    let p0 = skip_ws(b, pos);
    match parse_string(b, p0) {
        Some((key, p1)) => {
            let p2 = skip_ws(b, p1);
            if p2 < b.len() && b[p2] == 58 {
                proof {
                    assert(b@.skip(p2 as int)[0] == b@[p2 as int]);
                    assert(b@.skip(p2 as int).skip(1) =~= b@.skip(p2 as int + 1));
                }
                let p3 = skip_ws(b, p2 + 1);
                match parse_string(b, p3) {
                    Some((value, p4)) => Some((key, value, p4)),
                    None => None,
                }
            } else {
                proof {
                    if p2 < b@.len() {
                        assert(b@.skip(p2 as int)[0] == b@[p2 as int]);
                    }
                }
                None
            }
        },
        None => None,
    }
}

/// The views of a member vector, pair by pair.
pub open spec fn member_views(items: Seq<(Vec<u8>, Vec<u8>)>) -> Seq<(Seq<u8>, Seq<u8>)> {
    Seq::new(items.len(), |i: int| (items[i].0@, items[i].1@))
}

/// Maps a parsed member-list tail through already-parsed members.
pub open spec fn spec_prepend_members(
    prefix: Seq<(Seq<u8>, Seq<u8>)>,
    r: Option<(Seq<(Seq<u8>, Seq<u8>)>, Seq<u8>)>,
) -> Option<(Seq<(Seq<u8>, Seq<u8>)>, Seq<u8>)> {
    match r {
        Some((ms, rest)) => Some((prefix + ms, rest)),
        None => None,
    }
}

/// Appending a member adds its key once to the key's count.
pub proof fn lemma_key_count_snoc(ms: Seq<(Seq<u8>, Seq<u8>)>, m: (Seq<u8>, Seq<u8>), key: Seq<u8>)
    ensures
        key_count(ms.push(m), key) == key_count(ms, key) + (if m.0 == key {
            1nat
        } else {
            0nat
        }),
    decreases ms.len(),
{
    if ms.len() == 0 {
        assert(ms.push(m)[0] == m);
        assert(ms.push(m).skip(1) =~= Seq::<(Seq<u8>, Seq<u8>)>::empty());
        assert(key_count(Seq::<(Seq<u8>, Seq<u8>)>::empty(), key) == 0);
    } else {
        assert(ms.push(m)[0] == ms[0]);
        assert(ms.push(m).skip(1) =~= ms.skip(1).push(m));
        lemma_key_count_snoc(ms.skip(1), m, key);
    }
}

/// Appending a member changes the key's first value only where the key was
/// absent and the new member carries it.
pub proof fn lemma_value_of_snoc(ms: Seq<(Seq<u8>, Seq<u8>)>, m: (Seq<u8>, Seq<u8>), key: Seq<u8>)
    ensures
        key_count(ms, key) >= 1 ==> value_of(ms.push(m), key) == value_of(ms, key),
        key_count(ms, key) == 0 && m.0 == key ==> value_of(ms.push(m), key) == m.1,
    decreases ms.len(),
{
    if ms.len() == 0 {
        assert(ms.push(m)[0] == m);
    } else {
        assert(ms.push(m)[0] == ms[0]);
        assert(ms.push(m).skip(1) =~= ms.skip(1).push(m));
        lemma_value_of_snoc(ms.skip(1), m, key);
    }
}

fn parse_members(b: &Vec<u8>, pos: usize, fuel: usize) -> (r: Option<
    (Vec<(Vec<u8>, Vec<u8>)>, usize),
>)
    requires
        pos <= b@.len(),
    ensures
        (match r {
            Some((ms, next)) => {
                &&& pos <= next <= b@.len()
                &&& spec_parse_members(b@.skip(pos as int), fuel as nat) == Some(
                    (member_views(ms@), b@.skip(next as int)),
                )
            },
            None => spec_parse_members(b@.skip(pos as int), fuel as nat) is None,
        }),
{
    let mut acc: Vec<(Vec<u8>, Vec<u8>)> = Vec::new();
    let mut cur: usize = pos;
    let mut f: usize = fuel;
    loop
        invariant
            pos <= cur <= b@.len(),
            f <= fuel,
            spec_parse_members(b@.skip(pos as int), fuel as nat) == spec_prepend_members(
                member_views(acc@),
                spec_parse_members(b@.skip(cur as int), f as nat),
            ),
        decreases f,
    {
        let ghost acc_pre = acc@;
        let ghost cur_pre = cur;
        let ghost f_pre = f;
        match parse_member(b, cur) {
            None => {
                return None;
            },
            Some((key, value, p0)) => {
                let ghost kv = (key@, value@);
                let p1 = skip_ws(b, p0);
                if p1 < b.len() && b[p1] == 44 {
                    proof {
                        assert(b@.skip(p1 as int)[0] == b@[p1 as int]);
                        assert(b@.skip(p1 as int).skip(1) =~= b@.skip(p1 as int + 1));
                    }
                    if f == 0 {
                        return None;
                    }
                    acc.push((key, value));
                    cur = p1 + 1;
                    f -= 1;
                    proof {
                        assert(member_views(acc@) =~= member_views(acc_pre).push(kv));
                        let tail = spec_parse_members(b@.skip(cur as int), f as nat);
                        assert(spec_parse_members(b@.skip(cur_pre as int), f_pre as nat)
                            == spec_prepend_members(seq![kv], tail));
                        match tail {
                            Some((ms, r2)) => {
                                assert(member_views(acc_pre) + (seq![kv] + ms) =~= member_views(
                                    acc@,
                                ) + ms);
                            },
                            None => {},
                        }
                    }
                } else {
                    proof {
                        if p1 < b@.len() {
                            assert(b@.skip(p1 as int)[0] == b@[p1 as int]);
                        }
                        assert(spec_parse_members(b@.skip(cur_pre as int), f_pre as nat) == Some(
                            (seq![kv], b@.skip(p0 as int)),
                        ));
                    }
                    acc.push((key, value));
                    proof {
                        assert(member_views(acc@) =~= member_views(acc_pre).push(kv));
                        assert(member_views(acc_pre) + seq![kv] =~= member_views(acc@));
                    }
                    return Some((acc, p0));
                }
            },
        }
    }
}

/// Parses the descriptor file's bytes. Exactly the well-formed descriptors
/// parse, to exactly the script and class they name.
pub fn parse_slave_configuration(b: &Vec<u8>) -> (r: Option<SlaveConfiguration>)
    ensures
        (match r {
            Some(c) => spec_parse_descriptor(b@) == Some((c.slave_script@, c.slave_class@)),
            None => spec_parse_descriptor(b@) is None,
        }),
{
    proof {
        assert(b@.skip(0) =~= b@);
    }
    let p0 = skip_ws(b, 0);
    if p0 >= b.len() || b[p0] != 123 {
        proof {
            if p0 < b@.len() {
                assert(b@.skip(p0 as int)[0] == b@[p0 as int]);
            }
        }
        return None;
    }
    proof {
        assert(b@.skip(p0 as int)[0] == b@[p0 as int]);
        assert(b@.skip(p0 as int).skip(1) =~= b@.skip(p0 as int + 1));
    }
    match parse_members(b, p0 + 1, b.len()) {
        None => None,
        Some((members, p1)) => {
            let p1s = skip_ws(b, p1);
            if p1s >= b.len() || b[p1s] != 125 {
                proof {
                    if p1s < b@.len() {
                        assert(b@.skip(p1s as int)[0] == b@[p1s as int]);
                    }
                }
                return None;
            }
            proof {
                assert(b@.skip(p1s as int)[0] == b@[p1s as int]);
                assert(b@.skip(p1s as int).skip(1) =~= b@.skip(p1s as int + 1));
            }
            let p2 = skip_ws(b, p1s + 1);
            if p2 != b.len() {
                return None;
            }
            proof {
                assert(b@.skip(p2 as int).len() == 0);
            }
            extract_configuration(members)
        },
    }
}

/// Picks the two named members out of a parsed member list: each must
/// occur exactly once; every other member is ignored.
fn extract_configuration(members: Vec<(Vec<u8>, Vec<u8>)>) -> (r: Option<SlaveConfiguration>)
    ensures
        (match r {
            Some(c) => {
                &&& key_count(member_views(members@), "slave_script".spec_bytes()) == 1
                &&& key_count(member_views(members@), "slave_class".spec_bytes()) == 1
                &&& c.slave_script@ == value_of(member_views(members@), "slave_script".spec_bytes())
                &&& c.slave_class@ == value_of(member_views(members@), "slave_class".spec_bytes())
            },
            None => key_count(member_views(members@), "slave_script".spec_bytes()) != 1
                || key_count(member_views(members@), "slave_class".spec_bytes()) != 1,
        }),
{
    let ghost ms = member_views(members@);
    let key_script = "slave_script".as_bytes_vec();
    let key_class = "slave_class".as_bytes_vec();
    let mut script: Option<Vec<u8>> = None;
    let mut class_value: Option<Vec<u8>> = None;
    let mut script_count: usize = 0;
    let mut class_count: usize = 0;
    let mut i: usize = 0;
    while i < members.len()
        invariant
            ms == member_views(members@),
            key_script@ == "slave_script".spec_bytes(),
            key_class@ == "slave_class".spec_bytes(),
            i <= members@.len(),
            script_count <= i,
            class_count <= i,
            script_count as nat == key_count(ms.take(i as int), key_script@),
            class_count as nat == key_count(ms.take(i as int), key_class@),
            (match script {
                Some(s) => script_count >= 1 && s@ == value_of(ms.take(i as int), key_script@),
                None => script_count == 0,
            }),
            (match class_value {
                Some(s) => class_count >= 1 && s@ == value_of(ms.take(i as int), key_class@),
                None => class_count == 0,
            }),
        decreases members@.len() - i,
    {
        let ghost taken = ms.take(i as int);
        let ghost m = ms[i as int];
        proof {
            assert(ms[i as int] == (members@[i as int].0@, members@[i as int].1@));
            assert(ms.take(i as int + 1) =~= taken.push(m));
            lemma_key_count_snoc(taken, m, key_script@);
            lemma_key_count_snoc(taken, m, key_class@);
            lemma_value_of_snoc(taken, m, key_script@);
            lemma_value_of_snoc(taken, m, key_class@);
        }
        let pair = &members[i];
        if bytes_eq(&pair.0, &key_script) {
            if script.is_none() {
                script = Some(pair.1.clone());
            }
            script_count += 1;
        }
        if bytes_eq(&pair.0, &key_class) {
            if class_value.is_none() {
                class_value = Some(pair.1.clone());
            }
            class_count += 1;
        }
        i += 1;
    }
    proof {
        assert(ms.take(members@.len() as int) =~= ms);
    }
    if script_count != 1 || class_count != 1 {
        return None;
    }
    match (script, class_value) {
        (Some(slave_script), Some(slave_class)) => Some(
            SlaveConfiguration { slave_script, slave_class },
        ),
        _ => None,
    }
}

} // verus!

verus! {

// ------------------------------ command line ------------------------------

/// The decimal digits of a number, most significant first.
pub open spec fn spec_decimal(n: nat) -> Seq<u8>
    decreases n,
{
    if n < 10 {
        seq![(48 + n) as u8]
    } else {
        spec_decimal(n / 10) + seq![(48 + n % 10) as u8]
    }
}

/// Formats a port number in decimal, as it is passed on a command line.
pub fn format_decimal(n: u16) -> (r: Vec<u8>)
    ensures
        r@ == spec_decimal(n as nat),
    decreases n,
{
    if n < 10 {
        let mut out: Vec<u8> = Vec::new();
        out.push(48 + (n as u8));
        proof {
            assert(out@ =~= spec_decimal(n as nat));
        }
        out
    } else {
        let mut out = format_decimal(n / 10);
        out.push(48 + ((n % 10) as u8));
        proof {
            assert(out@ =~= spec_decimal(n as nat));
        }
        out
    }
}

/// Joins a directory and a file name with a single separator.
pub fn join_path(dir: &Vec<u8>, name: &Vec<u8>) -> (r: Vec<u8>)
    ensures
        r@ == dir@ + seq![47u8] + name@,
{
    let mut out: Vec<u8> = Vec::new();
    out.extend_from_slice(dir.as_slice());
    out.push(47);
    out.extend_from_slice(name.as_slice());
    proof {
        assert(out@ =~= dir@ + seq![47u8] + name@);
    }
    out
}

/// The name of the descriptor file inside an FMU's resource directory.
pub fn descriptor_file_name() -> (r: Vec<u8>)
    ensures
        r@ == "slave_configuration.json".spec_bytes(),
{
    "slave_configuration.json".as_bytes_vec()
}

/// The exact command line that launches one slave process: the configured
/// interpreter runs the slave-process entry script, which loads the slave
/// script and class named by the descriptor and connects back to the three
/// endpoints passed as port arguments.
pub fn spawn_arguments(
    interpreter: &Vec<u8>,
    script_path: &Vec<u8>,
    slave_class: &Vec<u8>,
    instance_name: &Vec<u8>,
    handshake_port: u16,
    command_port: u16,
    logging_port: u16,
) -> (args: Vec<Vec<u8>>)
    ensures
        bytes_views(args@) == seq![
            interpreter@,
            "slave_process.py".spec_bytes(),
            "--slave-script".spec_bytes(),
            script_path@,
            "--slave-class".spec_bytes(),
            slave_class@,
            "--instance-name".spec_bytes(),
            instance_name@,
            "--handshake-port".spec_bytes(),
            spec_decimal(handshake_port as nat),
            "--command-port".spec_bytes(),
            spec_decimal(command_port as nat),
            "--logging-port".spec_bytes(),
            spec_decimal(logging_port as nat),
        ],
{
    let mut args: Vec<Vec<u8>> = Vec::new();
    args.push(interpreter.clone());
    args.push("slave_process.py".as_bytes_vec());
    args.push("--slave-script".as_bytes_vec());
    args.push(script_path.clone());
    args.push("--slave-class".as_bytes_vec());
    args.push(slave_class.clone());
    args.push("--instance-name".as_bytes_vec());
    args.push(instance_name.clone());
    args.push("--handshake-port".as_bytes_vec());
    args.push(format_decimal(handshake_port));
    args.push("--command-port".as_bytes_vec());
    args.push(format_decimal(command_port));
    args.push("--logging-port".as_bytes_vec());
    args.push(format_decimal(logging_port));
    proof {
        assert(bytes_views(args@) =~= seq![
            interpreter@,
            "slave_process.py".spec_bytes(),
            "--slave-script".spec_bytes(),
            script_path@,
            "--slave-class".spec_bytes(),
            slave_class@,
            "--instance-name".spec_bytes(),
            instance_name@,
            "--handshake-port".spec_bytes(),
            spec_decimal(handshake_port as nat),
            "--command-port".spec_bytes(),
            spec_decimal(command_port as nat),
            "--logging-port".spec_bytes(),
            spec_decimal(logging_port as nat),
        ]);
    }
    args
}

} // verus!
