//! The groups backing-store codec. The collection is persisted as one
//! JSON-style document: an array of records
//! `{"id":"...","name":"...","devices":["...",...]}`. The serializer and
//! the parser are verified against the same written form, and parsing a
//! serialized collection provably gives the collection back; any content
//! the parser rejects makes loading degrade to the empty collection.

use vstd::prelude::*;
use vstd::string::*;

use crate::group::{DeviceGroup, GroupView};
use crate::strutil::push_char;

verus! {

broadcast use crate::strutil::lemma_deep_view_len, crate::strutil::lemma_deep_view_index;

// --- The written form ---

/// How one character is written inside a quoted string: a quote or a
/// backslash gets a backslash before it; anything else stands as it is.
pub open spec fn escape_char(c: char) -> Seq<char> {
    if c == '"' || c == '\\' {
        seq!['\\', c]
    } else {
        seq![c]
    }
}

/// The escaped form of a string's characters.
pub open spec fn escape(s: Seq<char>) -> Seq<char>
    decreases s.len(),
{
    if s.len() == 0 {
        Seq::empty()
    } else {
        escape_char(s[0]) + escape(s.skip(1))
    }
}

/// A string as written: its escaped characters between double quotes.
pub open spec fn quote(s: Seq<char>) -> Seq<char> {
    seq!['"'] + escape(s) + seq!['"']
}

/// A comma-separated list of quoted strings.
pub open spec fn ser_str_list(l: Seq<Seq<char>>) -> Seq<char>
    decreases l.len(),
{
    if l.len() == 0 {
        Seq::empty()
    } else if l.len() == 1 {
        quote(l[0])
    } else {
        quote(l[0]) + seq![','] + ser_str_list(l.skip(1))
    }
}

/// One group record as written.
pub open spec fn ser_group(g: GroupView) -> Seq<char> {
    "{\"id\":"@ + quote(g.id) + ",\"name\":"@ + quote(g.name) + ",\"devices\":["@ + ser_str_list(
        g.devices,
    ) + "]}"@
}

/// A comma-separated list of group records.
pub open spec fn ser_group_list(gs: Seq<GroupView>) -> Seq<char>
    decreases gs.len(),
{
    if gs.len() == 0 {
        Seq::empty()
    } else if gs.len() == 1 {
        ser_group(gs[0])
    } else {
        ser_group(gs[0]) + seq![','] + ser_group_list(gs.skip(1))
    }
}

/// The whole document: the group records between square brackets.
pub open spec fn ser_groups(gs: Seq<GroupView>) -> Seq<char> {
    seq!['['] + ser_group_list(gs) + seq![']']
}

// --- The parser, as spec functions ---

/// The character an escape code stands for; `None` for a code the written
/// form never uses.
pub open spec fn unescape_char(c: char) -> Option<char> {
    if c == '"' {
        Some('"')
    } else if c == '\\' {
        Some('\\')
    } else if c == '/' {
        Some('/')
    } else if c == 'n' {
        Some('\n')
    } else if c == 't' {
        Some('\t')
    } else if c == 'r' {
        Some('\r')
    } else {
        None
    }
}

/// What a quoted string's body parses to from position `i`, just past the
/// opening quote: the decoded characters and the position just past the
/// closing quote.
pub open spec fn parse_string_body(s: Seq<char>, i: int) -> Option<(Seq<char>, int)>
    decreases s.len() - i,
    when 0 <= i <= s.len()
{
    if i >= s.len() {
        None
    } else if s[i] == '"' {
        Some((Seq::empty(), i + 1))
    } else if s[i] == '\\' {
        if i + 1 >= s.len() {
            None
        } else {
            match unescape_char(s[i + 1]) {
                None => None,
                Some(d) => match parse_string_body(s, i + 2) {
                    None => None,
                    Some((rest, j)) => Some((seq![d] + rest, j)),
                },
            }
        }
    } else {
        match parse_string_body(s, i + 1) {
            None => None,
            Some((rest, j)) => Some((seq![s[i]] + rest, j)),
        }
    }
}

/// A quoted string starting at `i`.
pub open spec fn parse_string(s: Seq<char>, i: int) -> Option<(Seq<char>, int)> {
    if 0 <= i < s.len() && s[i] == '"' {
        parse_string_body(s, i + 1)
    } else {
        None
    }
}

/// The position just past the expected literal text at `i`, when it
/// stands there.
pub open spec fn expect_lit(s: Seq<char>, i: int, lit: Seq<char>) -> Option<int> {
    if 0 <= i && i + lit.len() <= s.len() && s.subrange(i, i + lit.len()) == lit {
        Some(i + lit.len())
    } else {
        None
    }
}

/// A successful string-body parse moves the position forward and stays in
/// bounds.
pub proof fn lemma_parse_string_body_bounds(s: Seq<char>, i: int)
    requires
        0 <= i <= s.len(),
    ensures
        parse_string_body(s, i) matches Some(p) ==> i < p.1 <= s.len(),
    decreases s.len() - i,
{
    if i < s.len() && s[i] == '\\' && i + 1 < s.len() {
        lemma_parse_string_body_bounds(s, i + 2);
    } else if i < s.len() && s[i] != '"' && s[i] != '\\' {
        lemma_parse_string_body_bounds(s, i + 1);
    }
}

/// A successful string parse consumes at least the two quotes.
pub proof fn lemma_parse_string_bounds(s: Seq<char>, i: int)
    ensures
        parse_string(s, i) matches Some(p) ==> i + 2 <= p.1 <= s.len(),
{
    if 0 <= i < s.len() && s[i] == '"' {
        lemma_parse_string_body_bounds(s, i + 1);
    }
}

/// One or more quoted strings separated by commas, ended by a `]` that is
/// consumed too.
pub open spec fn parse_str_items(s: Seq<char>, i: int) -> Option<(Seq<Seq<char>>, int)>
    decreases s.len() - i,
    when 0 <= i <= s.len()
    via parse_str_items_dec
{
    match parse_string(s, i) {
        None => None,
        Some((v, j)) => {
            if j < s.len() && s[j] == ',' {
                match parse_str_items(s, j + 1) {
                    None => None,
                    Some((rest, k)) => Some((seq![v] + rest, k)),
                }
            } else if j < s.len() && s[j] == ']' {
                Some((seq![v], j + 1))
            } else {
                None
            }
        },
    }
}

#[via_fn]
proof fn parse_str_items_dec(s: Seq<char>, i: int) {
    lemma_parse_string_bounds(s, i);
}

/// A successful item-list parse moves the position forward and stays in
/// bounds.
pub proof fn lemma_parse_str_items_bounds(s: Seq<char>, i: int)
    requires
        0 <= i <= s.len(),
    ensures
        parse_str_items(s, i) matches Some(p) ==> i < p.1 <= s.len(),
    decreases s.len() - i,
{
    lemma_parse_string_bounds(s, i);
    if parse_string(s, i) is Some {
        let j = (parse_string(s, i)->0).1;
        if j < s.len() && s[j] == ',' {
            lemma_parse_str_items_bounds(s, j + 1);
        }
    }
}

/// One group record starting at `i`.
pub open spec fn parse_group(s: Seq<char>, i: int) -> Option<(GroupView, int)> {
    match expect_lit(s, i, "{\"id\":"@) {
        None => None,
        Some(j1) => match parse_string(s, j1) {
            None => None,
            Some((id, j2)) => match expect_lit(s, j2, ",\"name\":"@) {
                None => None,
                Some(j3) => match parse_string(s, j3) {
                    None => None,
                    Some((name, j4)) => match expect_lit(s, j4, ",\"devices\":["@) {
                        None => None,
                        Some(j5) => {
                            let items = if j5 < s.len() && s[j5] == ']' {
                                Some((Seq::<Seq<char>>::empty(), j5 + 1))
                            } else {
                                parse_str_items(s, j5)
                            };
                            match items {
                                None => None,
                                Some((devices, j6)) => match expect_lit(s, j6, "}"@) {
                                    None => None,
                                    Some(j7) => Some(
                                        (GroupView { id, name, devices }, j7),
                                    ),
                                },
                            }
                        },
                    },
                },
            },
        },
    }
}

/// A successful group parse moves the position forward and stays in bounds.
pub proof fn lemma_parse_group_bounds(s: Seq<char>, i: int)
    ensures
        parse_group(s, i) matches Some(p) ==> i < p.1 <= s.len(),
{
    if expect_lit(s, i, "{\"id\":"@) is Some {
        let j1 = expect_lit(s, i, "{\"id\":"@)->0;
        lemma_parse_string_bounds(s, j1);
        if parse_string(s, j1) is Some {
            let j2 = (parse_string(s, j1)->0).1;
            if expect_lit(s, j2, ",\"name\":"@) is Some {
                let j3 = expect_lit(s, j2, ",\"name\":"@)->0;
                lemma_parse_string_bounds(s, j3);
                if parse_string(s, j3) is Some {
                    let j4 = (parse_string(s, j3)->0).1;
                    if expect_lit(s, j4, ",\"devices\":["@) is Some {
                        let j5 = expect_lit(s, j4, ",\"devices\":["@)->0;
                        lemma_parse_str_items_bounds(s, j5);
                    }
                }
            }
        }
    }
}

/// One or more group records separated by commas, ended by a `]` that is
/// consumed too.
pub open spec fn parse_group_items(s: Seq<char>, i: int) -> Option<(Seq<GroupView>, int)>
    decreases s.len() - i,
    when 0 <= i <= s.len()
    via parse_group_items_dec
{
    match parse_group(s, i) {
        None => None,
        Some((g, j)) => {
            if j < s.len() && s[j] == ',' {
                match parse_group_items(s, j + 1) {
                    None => None,
                    Some((rest, k)) => Some((seq![g] + rest, k)),
                }
            } else if j < s.len() && s[j] == ']' {
                Some((seq![g], j + 1))
            } else {
                None
            }
        },
    }
}

#[via_fn]
proof fn parse_group_items_dec(s: Seq<char>, i: int) {
    lemma_parse_group_bounds(s, i);
}

// --- The round trip: parsing a serialized collection gives it back ---

/// Parsing a string body at the escaped text recovers the original
/// characters, whatever stands before and after.
proof fn lemma_parse_string_body_rt(pre: Seq<char>, t: Seq<char>, rest: Seq<char>)
    ensures
        parse_string_body(pre + escape(t) + seq!['"'] + rest, pre.len() as int) == Some(
            (t, (pre.len() + escape(t).len() + 1) as int),
        ),
    decreases t.len(),
{
    let s = pre + escape(t) + seq!['"'] + rest;
    let i = pre.len() as int;
    if t.len() == 0 {
        assert(s[i] == '"');
        assert(t =~= Seq::<char>::empty());
    } else {
        let c = t[0];
        if c == '"' || c == '\\' {
            assert(escape(t) == seq!['\\', c] + escape(t.skip(1)));
            assert(s[i] == '\\');
            assert(s[i + 1] == c);
            assert(unescape_char(c) == Some(c));
            lemma_parse_string_body_rt(pre + seq!['\\', c], t.skip(1), rest);
            assert(pre + seq!['\\', c] + escape(t.skip(1)) + seq!['"'] + rest =~= s);
            assert(parse_string_body(s, i + 2) == Some(
                (t.skip(1), i + 2 + escape(t.skip(1)).len() + 1),
            ));
            assert(seq![c] + t.skip(1) =~= t);
        } else {
            assert(escape(t) == seq![c] + escape(t.skip(1)));
            assert(s[i] == c);
            lemma_parse_string_body_rt(pre + seq![c], t.skip(1), rest);
            assert(pre + seq![c] + escape(t.skip(1)) + seq!['"'] + rest =~= s);
            assert(parse_string_body(s, i + 1) == Some(
                (t.skip(1), i + 1 + escape(t.skip(1)).len() + 1),
            ));
            assert(seq![c] + t.skip(1) =~= t);
        }
    }
}

/// Parsing at a quoted string recovers the original characters.
proof fn lemma_parse_string_rt(pre: Seq<char>, t: Seq<char>, rest: Seq<char>)
    ensures
        parse_string(pre + quote(t) + rest, pre.len() as int) == Some(
            (t, (pre.len() + quote(t).len()) as int),
        ),
{
    let s = pre + quote(t) + rest;
    let i = pre.len() as int;
    assert(s[i] == '"');
    lemma_parse_string_body_rt(pre + seq!['"'], t, rest);
    assert(pre + seq!['"'] + escape(t) + seq!['"'] + rest =~= s);
}

/// The expected literal is found where it was written.
proof fn lemma_expect_lit_rt(pre: Seq<char>, lit: Seq<char>, rest: Seq<char>)
    ensures
        expect_lit(pre + lit + rest, pre.len() as int, lit) == Some((pre.len() + lit.len()) as int),
{
    let s = pre + lit + rest;
    assert(s.subrange(pre.len() as int, pre.len() + lit.len() as int) =~= lit);
}

/// Parsing at a serialized string list recovers the list, up to and past
/// the closing bracket.
proof fn lemma_parse_str_items_rt(pre: Seq<char>, l: Seq<Seq<char>>, rest: Seq<char>)
    requires
        l.len() >= 1,
    ensures
        parse_str_items(pre + ser_str_list(l) + seq![']'] + rest, pre.len() as int) == Some(
            (l, (pre.len() + ser_str_list(l).len() + 1) as int),
        ),
    decreases l.len(),
{
    let s = pre + ser_str_list(l) + seq![']'] + rest;
    let i = pre.len() as int;
    if l.len() == 1 {
        assert(ser_str_list(l) == quote(l[0]));
        lemma_parse_string_rt(pre, l[0], seq![']'] + rest);
        assert(pre + quote(l[0]) + (seq![']'] + rest) =~= s);
        let j = i + quote(l[0]).len();
        assert(s[j] == ']');
        assert(seq![l[0]] =~= l);
    } else {
        assert(ser_str_list(l) == quote(l[0]) + seq![','] + ser_str_list(l.skip(1)));
        let tail = seq![','] + ser_str_list(l.skip(1)) + seq![']'] + rest;
        lemma_parse_string_rt(pre, l[0], tail);
        assert(pre + quote(l[0]) + tail =~= s);
        let j = i + quote(l[0]).len();
        assert(s[j] == ',');
        lemma_parse_str_items_rt(pre + quote(l[0]) + seq![','], l.skip(1), rest);
        assert(pre + quote(l[0]) + seq![','] + ser_str_list(l.skip(1)) + seq![']'] + rest
            =~= s);
        assert(seq![l[0]] + l.skip(1) =~= l);
    }
}

/// Parsing at a serialized group record recovers the record.
#[verifier::rlimit(100)]
proof fn lemma_parse_group_rt(pre: Seq<char>, g: GroupView, rest: Seq<char>)
    ensures
        parse_group(pre + ser_group(g) + rest, pre.len() as int) == Some(
            (g, (pre.len() + ser_group(g).len()) as int),
        ),
{
    let s = pre + ser_group(g) + rest;
    let i = pre.len() as int;
    let lit1 = "{\"id\":"@;
    let lit2 = ",\"name\":"@;
    let lit3 = ",\"devices\":["@;
    let lit4 = "}"@;
    let p1 = pre + lit1;
    let p2 = p1 + quote(g.id);
    let p3 = p2 + lit2;
    let p4 = p3 + quote(g.name);
    let p5 = p4 + lit3;
    let p6 = p5 + ser_str_list(g.devices) + seq![']'];
    lemma_expect_lit_rt(pre, lit1, quote(g.id) + lit2 + quote(g.name) + lit3 + ser_str_list(
        g.devices,
    ) + "]}"@ + rest);
    assert(pre + lit1 + (quote(g.id) + lit2 + quote(g.name) + lit3 + ser_str_list(g.devices)
        + "]}"@ + rest) =~= s);
    lemma_parse_string_rt(p1, g.id, lit2 + quote(g.name) + lit3 + ser_str_list(g.devices)
        + "]}"@ + rest);
    assert(p1 + quote(g.id) + (lit2 + quote(g.name) + lit3 + ser_str_list(g.devices) + "]}"@
        + rest) =~= s);
    lemma_expect_lit_rt(p2, lit2, quote(g.name) + lit3 + ser_str_list(g.devices) + "]}"@
        + rest);
    assert(p2 + lit2 + (quote(g.name) + lit3 + ser_str_list(g.devices) + "]}"@ + rest) =~= s);
    lemma_parse_string_rt(p3, g.name, lit3 + ser_str_list(g.devices) + "]}"@ + rest);
    assert(p3 + quote(g.name) + (lit3 + ser_str_list(g.devices) + "]}"@ + rest) =~= s);
    lemma_expect_lit_rt(p4, lit3, ser_str_list(g.devices) + "]}"@ + rest);
    assert(p4 + lit3 + (ser_str_list(g.devices) + "]}"@ + rest) =~= s);
    reveal_strlit("]}");
    reveal_strlit("}");
    assert("]}"@ =~= seq![']'] + "}"@);
    assert(expect_lit(s, i, lit1) == Some(p1.len() as int));
    assert(parse_string(s, p1.len() as int) == Some((g.id, p2.len() as int)));
    assert(expect_lit(s, p2.len() as int, lit2) == Some(p3.len() as int));
    assert(parse_string(s, p3.len() as int) == Some((g.name, p4.len() as int)));
    assert(expect_lit(s, p4.len() as int, lit3) == Some(p5.len() as int));
    if g.devices.len() == 0 {
        assert(ser_str_list(g.devices) =~= Seq::<char>::empty());
        assert(g.devices =~= Seq::<Seq<char>>::empty());
        assert(s[p5.len() as int] == ']');
        assert(p6 =~= p5 + seq![']']);
    } else {
        lemma_parse_str_items_rt(p5, g.devices, "}"@ + rest);
        assert(p5 + ser_str_list(g.devices) + seq![']'] + ("}"@ + rest) =~= s);
        assert(ser_str_list(g.devices)[0] == '"') by {
            if g.devices.len() == 1 {
                assert(ser_str_list(g.devices) == quote(g.devices[0]));
            } else {
                assert(ser_str_list(g.devices) == quote(g.devices[0]) + seq![',']
                    + ser_str_list(g.devices.skip(1)));
            }
            assert(quote(g.devices[0])[0] == '"');
        }
        assert(s[p5.len() as int] == '"');
        assert(parse_str_items(s, p5.len() as int) == Some((g.devices, p6.len() as int)));
    }
    lemma_expect_lit_rt(p6, lit4, rest);
    assert(p6 + lit4 + rest =~= s);
    assert(expect_lit(s, p6.len() as int, lit4) == Some((p6.len() + 1) as int));
    assert((GroupView { id: g.id, name: g.name, devices: g.devices }) == g);
    assert((pre.len() + ser_group(g).len()) as int == p6.len() + 1);
}

/// Parsing at a serialized group list recovers the list, up to and past
/// the closing bracket.
#[verifier::rlimit(100)]
#[verifier::spinoff_prover]
proof fn lemma_parse_group_items_rt(pre: Seq<char>, gs: Seq<GroupView>, rest: Seq<char>)
    requires
        gs.len() >= 1,
    ensures
        parse_group_items(pre + ser_group_list(gs) + seq![']'] + rest, pre.len() as int)
            == Some((gs, (pre.len() + ser_group_list(gs).len() + 1) as int)),
    decreases gs.len(),
{
    let s = pre + ser_group_list(gs) + seq![']'] + rest;
    let i = pre.len() as int;
    if gs.len() == 1 {
        assert(ser_group_list(gs) == ser_group(gs[0]));
        lemma_parse_group_rt(pre, gs[0], seq![']'] + rest);
        assert(pre + ser_group(gs[0]) + (seq![']'] + rest) =~= s);
        let j = i + ser_group(gs[0]).len();
        assert(parse_group(s, i) == Some((gs[0], j)));
        assert(s[j] == ']');
        assert(seq![gs[0]] =~= gs);
    } else {
        assert(ser_group_list(gs) == ser_group(gs[0]) + seq![','] + ser_group_list(
            gs.skip(1),
        ));
        let tail = seq![','] + ser_group_list(gs.skip(1)) + seq![']'] + rest;
        lemma_parse_group_rt(pre, gs[0], tail);
        assert(pre + ser_group(gs[0]) + tail =~= s);
        let j = i + ser_group(gs[0]).len();
        assert(parse_group(s, i) == Some((gs[0], j)));
        assert(s[j] == ',');
        lemma_parse_group_items_rt(pre + ser_group(gs[0]) + seq![','], gs.skip(1), rest);
        assert(pre + ser_group(gs[0]) + seq![','] + ser_group_list(gs.skip(1)) + seq![']']
            + rest =~= s);
        assert(parse_group_items(s, j + 1) == Some(
            (gs.skip(1), (pre.len() + ser_group(gs[0]).len() + 1 + ser_group_list(
                gs.skip(1),
            ).len() + 1) as int),
        ));
        assert(seq![gs[0]] + gs.skip(1) =~= gs);
    }
}

/// The persistence round trip: parsing the serialized form of any group
/// collection yields exactly that collection.
pub proof fn lemma_groups_round_trip(gs: Seq<GroupView>)
    ensures
        parse_groups_doc(ser_groups(gs)) == Some(gs),
{
    let s = ser_groups(gs);
    assert(s[0] == '[');
    if gs.len() == 0 {
        assert(ser_group_list(gs) =~= Seq::<char>::empty());
        assert(s.len() == 2);
        assert(s[1] == ']');
        assert(gs =~= Seq::<GroupView>::empty());
    } else {
        assert(ser_group_list(gs)[0] == '{') by {
            reveal_strlit("{\"id\":");
            if gs.len() == 1 {
                assert(ser_group_list(gs) == ser_group(gs[0]));
            } else {
                assert(ser_group_list(gs) == ser_group(gs[0]) + seq![','] + ser_group_list(
                    gs.skip(1),
                ));
            }
            assert(ser_group(gs[0])[0] == '{');
        }
        assert(s[1] == '{');
        lemma_parse_group_items_rt(seq!['['], gs, Seq::<char>::empty());
        assert(seq!['['] + ser_group_list(gs) + seq![']'] + Seq::<char>::empty() =~= s);
        assert(parse_group_items(s, 1) == Some((gs, s.len() as int)));
    }
}

/// The whole document: `[]`, or records between brackets, with nothing
/// before or after.
pub open spec fn parse_groups_doc(s: Seq<char>) -> Option<Seq<GroupView>> {
    if s.len() >= 1 && s[0] == '[' {
        if s.len() >= 2 && s[1] == ']' {
            if s.len() == 2 {
                Some(Seq::empty())
            } else {
                None
            }
        } else {
            match parse_group_items(s, 1) {
                None => None,
                Some((gs, j)) => if j == s.len() {
                    Some(gs)
                } else {
                    None
                },
            }
        }
    } else {
        None
    }
}

// --- The executable serializer ---

/// Escaping one more character appends its escaped form.
proof fn lemma_escape_snoc(t: Seq<char>, c: char)
    ensures
        escape(t.push(c)) == escape(t) + escape_char(c),
    decreases t.len(),
{
    if t.len() == 0 {
        assert(t.push(c)[0] == c);
        assert(t.push(c).skip(1) =~= Seq::<char>::empty());
        assert(escape(t.push(c).skip(1)) =~= Seq::<char>::empty());
        assert(escape(t) =~= Seq::<char>::empty());
        assert(escape(t.push(c)) =~= escape(t) + escape_char(c));
    } else {
        assert(t.push(c)[0] == t[0]);
        assert(t.push(c).skip(1) =~= t.skip(1).push(c));
        lemma_escape_snoc(t.skip(1), c);
        assert(escape(t.push(c)) == escape_char(t[0]) + escape(t.skip(1).push(c)));
        assert(escape_char(t[0]) + (escape(t.skip(1)) + escape_char(c)) =~= (escape_char(t[0])
            + escape(t.skip(1))) + escape_char(c));
        assert(escape(t.push(c)) =~= escape(t) + escape_char(c));
    }
}

/// Serializing one more string appends a comma (except before the first)
/// and its quoted form.
proof fn lemma_ser_str_list_snoc(l: Seq<Seq<char>>, x: Seq<char>)
    ensures
        ser_str_list(l.push(x)) == if l.len() == 0 {
            quote(x)
        } else {
            ser_str_list(l) + seq![','] + quote(x)
        },
    decreases l.len(),
{
    if l.len() == 0 {
        assert(l.push(x).len() == 1);
        assert(l.push(x)[0] == x);
    } else {
        assert(l.push(x)[0] == l[0]);
        assert(l.push(x).skip(1) =~= l.skip(1).push(x));
        lemma_ser_str_list_snoc(l.skip(1), x);
        if l.len() == 1 {
            assert(ser_str_list(l.push(x)) =~= ser_str_list(l) + seq![','] + quote(x));
        } else {
            assert(ser_str_list(l.push(x)) =~= ser_str_list(l) + seq![','] + quote(x));
        }
    }
}

/// Serializing one more group appends a comma (except before the first)
/// and its record.
proof fn lemma_ser_group_list_snoc(gs: Seq<GroupView>, g: GroupView)
    ensures
        ser_group_list(gs.push(g)) == if gs.len() == 0 {
            ser_group(g)
        } else {
            ser_group_list(gs) + seq![','] + ser_group(g)
        },
    decreases gs.len(),
{
    if gs.len() == 0 {
        assert(gs.push(g).len() == 1);
        assert(gs.push(g)[0] == g);
    } else {
        assert(gs.push(g)[0] == gs[0]);
        assert(gs.push(g).skip(1) =~= gs.skip(1).push(g));
        lemma_ser_group_list_snoc(gs.skip(1), g);
        assert(ser_group_list(gs.push(g)) =~= ser_group_list(gs) + seq![','] + ser_group(g));
    }
}

/// Appends the escaped form of the text to the output.
fn write_escaped(out: &mut String, s: &str)
    ensures
        final(out)@ == old(out)@ + escape(s@),
{
    let n = s.unicode_len();
    let mut i: usize = 0;
    proof {
        assert(escape(s@.take(0)) =~= Seq::<char>::empty());
        assert(out@ =~= old(out)@ + escape(s@.take(0)));
    }
    while i < n
        invariant
            0 <= i <= n,
            n == s@.len(),
            out@ == old(out)@ + escape(s@.take(i as int)),
        decreases n - i,
    {
        let c = s.get_char(i);
        proof {
            lemma_escape_snoc(s@.take(i as int), c);
            assert(s@.take(i as int).push(c) =~= s@.take(i + 1));
        }
        if c == '"' || c == '\\' {
            push_char(out, '\\');
            push_char(out, c);
        } else {
            push_char(out, c);
        }
        proof {
            assert(out@ =~= old(out)@ + escape(s@.take(i + 1)));
        }
        i += 1;
    }
    proof {
        assert(s@.take(n as int) =~= s@);
    }
}

/// Appends the quoted form of the text to the output.
fn write_quoted(out: &mut String, s: &str)
    ensures
        final(out)@ == old(out)@ + quote(s@),
{
    push_char(out, '"');
    write_escaped(out, s);
    push_char(out, '"');
    proof {
        assert(out@ =~= old(out)@ + quote(s@));
    }
}

/// Appends the comma-separated quoted strings to the output.
fn write_str_list(out: &mut String, l: &Vec<String>)
    ensures
        final(out)@ == old(out)@ + ser_str_list(l.deep_view()),
{
    let n = l.len();
    let mut i: usize = 0;
    proof {
        assert(ser_str_list(l.deep_view().take(0)) =~= Seq::<char>::empty());
        assert(out@ =~= old(out)@ + ser_str_list(l.deep_view().take(0)));
    }
    while i < n
        invariant
            0 <= i <= n,
            n == l.deep_view().len(),
            n == l@.len(),
            out@ == old(out)@ + ser_str_list(l.deep_view().take(i as int)),
        decreases n - i,
    {
        proof {
            lemma_ser_str_list_snoc(l.deep_view().take(i as int), l.deep_view()[i as int]);
            assert(l.deep_view().take(i as int).push(l.deep_view()[i as int]) =~= l.deep_view()
                .take(i + 1));
        }
        if i > 0 {
            push_char(out, ',');
        }
        write_quoted(out, l[i].as_str());
        proof {
            assert(out@ =~= old(out)@ + ser_str_list(l.deep_view().take(i + 1)));
        }
        i += 1;
    }
    proof {
        assert(l.deep_view().take(n as int) =~= l.deep_view());
    }
}

/// Appends one group record to the output.
fn write_group(out: &mut String, g: &DeviceGroup)
    ensures
        final(out)@ == old(out)@ + ser_group(g@),
{
    out.append("{\"id\":");
    write_quoted(out, g.id());
    out.append(",\"name\":");
    write_quoted(out, g.name());
    out.append(",\"devices\":[");
    write_str_list(out, g.devices());
    out.append("]}");
    proof {
        assert(out@ =~= old(out)@ + ser_group(g@));
    }
}

/// The whole collection as its backing document.
pub fn groups_to_json(groups: &Vec<DeviceGroup>) -> (r: String)
    ensures
        r@ == ser_groups(groups.deep_view()),
{
    let mut out = String::new();
    push_char(&mut out, '[');
    let ghost base = out@;
    let n = groups.len();
    let mut i: usize = 0;
    proof {
        assert(ser_group_list(groups.deep_view().take(0)) =~= Seq::<char>::empty());
        assert(out@ =~= base + ser_group_list(groups.deep_view().take(0)));
    }
    while i < n
        invariant
            0 <= i <= n,
            n == groups.deep_view().len(),
            n == groups@.len(),
            base == seq!['['],
            out@ == base + ser_group_list(groups.deep_view().take(i as int)),
        decreases n - i,
    {
        proof {
            lemma_ser_group_list_snoc(
                groups.deep_view().take(i as int),
                groups.deep_view()[i as int],
            );
            assert(groups.deep_view().take(i as int).push(groups.deep_view()[i as int])
                =~= groups.deep_view().take(i + 1));
        }
        if i > 0 {
            push_char(&mut out, ',');
        }
        write_group(&mut out, &groups[i]);
        proof {
            assert(out@ =~= base + ser_group_list(groups.deep_view().take(i + 1)));
        }
        i += 1;
    }
    push_char(&mut out, ']');
    proof {
        assert(groups.deep_view().take(n as int) =~= groups.deep_view());
        assert(out@ =~= ser_groups(groups.deep_view()));
    }
    out
}

// --- The executable parser ---

/// Whether the literal text stands at position `i`; on success, the
/// position just past it.
fn expect_str(s: &str, i: usize, lit: &str) -> (r: Option<usize>)
    requires
        i <= s@.len(),
    ensures
        match expect_lit(s@, i as int, lit@) {
            Some(j) => r matches Some(q) && q as int == j,
            None => r is None,
        },
{
    let n = s.unicode_len();
    let m = lit.unicode_len();
    if m > n - i {
        return None;
    }
    let mut k: usize = 0;
    while k < m
        invariant
            0 <= k <= m,
            i + m <= n,
            n == s@.len(),
            m == lit@.len(),
            forall|t: int| 0 <= t < k ==> s@[i + t] == lit@[t],
        decreases m - k,
    {
        if s.get_char(i + k) != lit.get_char(k) {
            proof {
                assert(s@.subrange(i as int, i + m)[k as int] != lit@[k as int]);
            }
            return None;
        }
        k += 1;
    }
    proof {
        assert(s@.subrange(i as int, i + m) =~= lit@);
    }
    Some(i + m)
}

/// Decodes a quoted string's body from position `i`, just past the
/// opening quote.
fn parse_string_body_exec(s: &str, i: usize) -> (r: Option<(String, usize)>)
    requires
        i <= s@.len(),
    ensures
        match parse_string_body(s@, i as int) {
            Some(p) => r matches Some(q) && q.0@ == p.0 && q.1 as int == p.1,
            None => r is None,
        },
    decreases s@.len() - i,
{
    let n = s.unicode_len();
    if i >= n {
        return None;
    }
    let c = s.get_char(i);
    if c == '"' {
        return Some((String::new(), i + 1));
    }
    if c == '\\' {
        if i + 1 >= n {
            return None;
        }
        let e = s.get_char(i + 1);
        let decoded = match e {
            '"' => Some('"'),
            '\\' => Some('\\'),
            '/' => Some('/'),
            'n' => Some('\n'),
            't' => Some('\t'),
            'r' => Some('\r'),
            _ => None,
        };
        proof {
            assert(decoded == unescape_char(e));
        }
        match decoded {
            None => None,
            Some(d) => match parse_string_body_exec(s, i + 2) {
                None => None,
                Some((rest, j)) => {
                    let mut out = String::new();
                    push_char(&mut out, d);
                    out.append(rest.as_str());
                    proof {
                        assert(out@ =~= seq![d] + rest@);
                    }
                    Some((out, j))
                },
            },
        }
    } else {
        match parse_string_body_exec(s, i + 1) {
            None => None,
            Some((rest, j)) => {
                let mut out = String::new();
                push_char(&mut out, c);
                out.append(rest.as_str());
                proof {
                    assert(out@ =~= seq![c] + rest@);
                }
                Some((out, j))
            },
        }
    }
}

/// Decodes a quoted string starting at `i`.
fn parse_string_exec(s: &str, i: usize) -> (r: Option<(String, usize)>)
    requires
        i <= s@.len(),
    ensures
        match parse_string(s@, i as int) {
            Some(p) => r matches Some(q) && q.0@ == p.0 && q.1 as int == p.1 && i < q.1
                <= s@.len(),
            None => r is None,
        },
{
    let n = s.unicode_len();
    if i >= n {
        return None;
    }
    if s.get_char(i) != '"' {
        return None;
    }
    proof {
        lemma_parse_string_bounds(s@, i as int);
    }
    parse_string_body_exec(s, i + 1)
}

/// Decodes the quoted strings up to and past the closing `]`.
fn parse_str_items_exec(s: &str, i: usize) -> (r: Option<(Vec<String>, usize)>)
    requires
        i <= s@.len(),
    ensures
        match parse_str_items(s@, i as int) {
            Some(p) => r matches Some(q) && q.0.deep_view() == p.0 && q.1 as int == p.1,
            None => r is None,
        },
    decreases s@.len() - i,
{
    let n = s.unicode_len();
    match parse_string_exec(s, i) {
        None => None,
        Some((v, j)) => {
            let ghost vv = v@;
            if j < n && s.get_char(j) == ',' {
                match parse_str_items_exec(s, j + 1) {
                    None => None,
                    Some((rest, k)) => {
                        let ghost old_rest = rest.deep_view();
                        let mut items = rest;
                        items.insert(0, v);
                        proof {
                            assert(items.deep_view() =~= seq![vv] + old_rest);
                        }
                        Some((items, k))
                    },
                }
            } else if j < n && s.get_char(j) == ']' {
                let mut items: Vec<String> = Vec::new();
                items.push(v);
                proof {
                    assert(items.deep_view() =~= seq![vv]);
                }
                Some((items, j + 1))
            } else {
                None
            }
        },
    }
}

/// Decodes one group record starting at `i`.
fn parse_group_exec(s: &str, i: usize) -> (r: Option<(DeviceGroup, usize)>)
    requires
        i <= s@.len(),
    ensures
        match parse_group(s@, i as int) {
            Some(p) => r matches Some(q) && q.0@ == p.0 && q.1 as int == p.1 && i < p.1
                <= s@.len(),
            None => r is None,
        },
{
    proof {
        lemma_parse_group_bounds(s@, i as int);
    }
    let n = s.unicode_len();
    let j1 = match expect_str(s, i, "{\"id\":") {
        Some(j) => j,
        None => {
            return None;
        },
    };
    let (id, j2) = match parse_string_exec(s, j1) {
        Some(p) => p,
        None => {
            return None;
        },
    };
    let j3 = match expect_str(s, j2, ",\"name\":") {
        Some(j) => j,
        None => {
            return None;
        },
    };
    let (name, j4) = match parse_string_exec(s, j3) {
        Some(p) => p,
        None => {
            return None;
        },
    };
    let j5 = match expect_str(s, j4, ",\"devices\":[") {
        Some(j) => j,
        None => {
            return None;
        },
    };
    proof {
        lemma_parse_str_items_bounds(s@, j5 as int);
    }
    let (devices, j6) = if j5 < n && s.get_char(j5) == ']' {
        (Vec::<String>::new(), j5 + 1)
    } else {
        match parse_str_items_exec(s, j5) {
            Some(p) => p,
            None => {
                return None;
            },
        }
    };
    let j7 = match expect_str(s, j6, "}") {
        Some(j) => j,
        None => {
            return None;
        },
    };
    let ghost idv = id@;
    let ghost namev = name@;
    let ghost devicesv = devices.deep_view();
    let g = DeviceGroup::from_parts(id, name, devices);
    proof {
        if devicesv.len() == 0 {
            assert(devicesv =~= Seq::<Seq<char>>::empty());
        }
        assert(g@ == (parse_group(s@, i as int)->0).0);
    }
    Some((g, j7))
}

/// Decodes the group records up to and past the closing `]`.
fn parse_group_items_exec(s: &str, i: usize) -> (r: Option<(Vec<DeviceGroup>, usize)>)
    requires
        i <= s@.len(),
    ensures
        match parse_group_items(s@, i as int) {
            Some(p) => r matches Some(q) && q.0.deep_view() == p.0 && q.1 as int == p.1,
            None => r is None,
        },
    decreases s@.len() - i,
{
    let n = s.unicode_len();
    match parse_group_exec(s, i) {
        None => None,
        Some((g, j)) => {
            let ghost gv = g@;
            if j < n && s.get_char(j) == ',' {
                match parse_group_items_exec(s, j + 1) {
                    None => None,
                    Some((rest, k)) => {
                        let ghost old_rest = rest.deep_view();
                        let mut items = rest;
                        items.insert(0, g);
                        proof {
                            assert(items.deep_view() =~= seq![gv] + old_rest);
                        }
                        Some((items, k))
                    },
                }
            } else if j < n && s.get_char(j) == ']' {
                let mut items: Vec<DeviceGroup> = Vec::new();
                items.push(g);
                proof {
                    assert(items.deep_view() =~= seq![gv]);
                }
                Some((items, j + 1))
            } else {
                None
            }
        },
    }
}

/// Decodes a whole backing document into the group collection it holds;
/// `None` for any content outside the written form.
pub fn parse_groups(s: &str) -> (r: Option<Vec<DeviceGroup>>)
    ensures
        match parse_groups_doc(s@) {
            Some(gs) => r matches Some(v) && v.deep_view() == gs,
            None => r is None,
        },
{
    let n = s.unicode_len();
    if n < 1 || s.get_char(0) != '[' {
        return None;
    }
    if n >= 2 && s.get_char(1) == ']' {
        if n == 2 {
            let v: Vec<DeviceGroup> = Vec::new();
            proof {
                assert(v.deep_view() =~= Seq::<GroupView>::empty());
            }
            return Some(v);
        } else {
            return None;
        }
    }
    match parse_group_items_exec(s, 1) {
        None => None,
        Some((gs, j)) => {
            if j == n {
                Some(gs)
            } else {
                None
            }
        },
    }
}

/// What loading the backing store yields: the parsed collection, or the
/// empty one when the store is missing or its content is rejected.
pub open spec fn loaded_groups(content: Option<Seq<char>>) -> Seq<GroupView> {
    match content {
        None => Seq::empty(),
        Some(s) => match parse_groups_doc(s) {
            Some(gs) => gs,
            None => Seq::empty(),
        },
    }
}

/// Reads the backing document into the group collection. A missing store
/// (`None`) is not an error, and content the parser rejects degrades to
/// the empty collection rather than failing: a corrupt groups file never
/// blocks the rest of the service.
pub fn load_groups(content: Option<&str>) -> (r: Vec<DeviceGroup>)
    ensures
        r.deep_view() == loaded_groups(content.deep_view()),
{
    match content {
        None => {
            let v: Vec<DeviceGroup> = Vec::new();
            proof {
                assert(v.deep_view() =~= Seq::<GroupView>::empty());
            }
            v
        },
        Some(s) => match parse_groups(s) {
            Some(gs) => gs,
            None => {
                let v: Vec<DeviceGroup> = Vec::new();
                proof {
                    assert(v.deep_view() =~= Seq::<GroupView>::empty());
                }
                v
            },
        },
    }
}

} // verus!
