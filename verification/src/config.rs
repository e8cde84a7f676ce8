//! Configuration properties.
//!
//! A configuration is the list of lines of a flat `key=value` file, handed in
//! by the process at startup. A property lookup finds the first line that
//! contains the property name as a substring and takes the text between the
//! first `=` of that line and the next `=` or the end of the line. A missing
//! property, or a matched line without `=`, is a fatal startup error: the
//! accessors require the property to be present, and `has_config_property`
//! is the executable test a caller runs first.

use vstd::prelude::*;
use vstd::string::StrSliceExecFns;
use vstd::string::StringExecFns;
use crate::digits::all_dec_digits;
use crate::digits::dec_value;
use crate::digits::parse_u64_checked;
use crate::text::contains_seq;
use crate::text::find_char;
use crate::text::idx_of;
use crate::text::lemma_idx_of_props;
use crate::text::str_contains;

verus! {

/// True iff some line of `config` contains `name` as a substring.
pub open spec fn has_matching_line(config: Seq<Seq<char>>, name: Seq<char>) -> bool {
    exists|i: int| 0 <= i < config.len() && contains_seq(#[trigger] config[i], name)
}

/// The index of the first line of `config` that contains `name`; `config.len()`
/// when no line does.
pub open spec fn first_match(config: Seq<Seq<char>>, name: Seq<char>) -> int
    decreases config.len(),
{
    if config.len() == 0 {
        0
    } else if contains_seq(config[0], name) {
        0
    } else {
        1 + first_match(config.drop_first(), name)
    }
}

/// The text of `line` between its first `=` and the next `=` or the end.
pub open spec fn eq_segment(line: Seq<char>) -> Seq<char> {
    let j = idx_of(line, '=');
    let rest = line.skip(j + 1);
    rest.take(idx_of(rest, '='))
}

/// True iff a lookup of `name` in `config` succeeds: some line contains
/// `name`, and the first such line holds an `=`.
pub open spec fn spec_has_property(config: Seq<Seq<char>>, name: Seq<char>) -> bool {
    &&& has_matching_line(config, name)
    &&& idx_of(config[first_match(config, name)], '=') < config[first_match(config, name)].len()
}

/// The value of property `name` in `config`.
pub open spec fn property_value(config: Seq<Seq<char>>, name: Seq<char>) -> Seq<char> {
    eq_segment(config[first_match(config, name)])
}

/// The pieces of `s` between its commas, in order, empty pieces included.
pub open spec fn split_on_comma(s: Seq<char>) -> Seq<Seq<char>>
    decreases s.len(),
{
    let j = idx_of(s, ',');
    if 0 <= j < s.len() {
        seq![s.take(j)] + split_on_comma(s.skip(j + 1))
    } else {
        seq![s]
    }
}

/// `parts` with every empty piece removed.
pub open spec fn non_empty_parts(parts: Seq<Seq<char>>) -> Seq<Seq<char>> {
    parts.filter(|p: Seq<char>| p.len() > 0)
}

/// Filtering a single piece keeps it exactly when it is non-empty.
proof fn lemma_non_empty_one(p: Seq<char>)
    ensures
        non_empty_parts(seq![p]) == if p.len() > 0 {
            seq![p]
        } else {
            Seq::<Seq<char>>::empty()
        },
{
    reveal_with_fuel(Seq::filter, 2);
    let s = seq![p];
    assert(s.drop_last() =~= Seq::<Seq<char>>::empty());
    if p.len() > 0 {
        assert(non_empty_parts(s) =~= seq![p]);
    } else {
        assert(non_empty_parts(s) =~= Seq::<Seq<char>>::empty());
    }
}

/// Filtering empty pieces distributes over concatenation.
proof fn lemma_non_empty_concat(a: Seq<Seq<char>>, b: Seq<Seq<char>>)
    ensures
        non_empty_parts(a + b) == non_empty_parts(a) + non_empty_parts(b),
{
    broadcast use vstd::seq_lib::group_filter_ensures;

    assert(non_empty_parts(a + b) == non_empty_parts(a) + non_empty_parts(b)) by {
        Seq::filter_distributes_over_add(a, b, |p: Seq<char>| p.len() > 0);
    }
}

/// `first_match` is the first index whose line contains `name`.
proof fn lemma_first_match_at(config: Seq<Seq<char>>, name: Seq<char>, i: int)
    requires
        0 <= i < config.len(),
        contains_seq(config[i], name),
        forall|j: int| 0 <= j < i ==> !contains_seq(#[trigger] config[j], name),
    ensures
        first_match(config, name) == i,
    decreases config.len(),
{
    if i == 0 {
    } else {
        assert(!contains_seq(config[0], name));
        assert(forall|j: int| 0 <= j < i - 1 ==> config.drop_first()[j] == config[j + 1]);
        lemma_first_match_at(config.drop_first(), name, i - 1);
    }
}

fn find_matching_line(config: &Vec<String>, property_name: &str) -> (found: Option<usize>)
    ensures
        match found {
            Some(i) => {
                &&& has_matching_line(config.deep_view(), property_name@)
                &&& i as int == first_match(config.deep_view(), property_name@)
                &&& i < config@.len()
            },
            None => !has_matching_line(config.deep_view(), property_name@),
        },
{
    let ghost cfg = config.deep_view();
    let n = config.len();
    let mut i: usize = 0;
    while i < n
        invariant
            i <= n,
            n == config@.len(),
            cfg == config.deep_view(),
            forall|j: int| 0 <= j < i ==> !contains_seq(#[trigger] cfg[j], property_name@),
        decreases n - i,
    {
        if str_contains(config[i].as_str(), property_name) {
            proof {
                lemma_first_match_at(cfg, property_name@, i as int);
            }
            return Some(i);
        }
        i += 1;
    }
    None
}

/// True iff a lookup of `property_name` would succeed: some line contains it,
/// and the first such line holds an `=`. The process tests this before it
/// reads a required property, and fails startup when it is false.
pub fn has_config_property(config: &Vec<String>, property_name: &str) -> (present: bool)
    ensures
        present == spec_has_property(config.deep_view(), property_name@),
{
    match find_matching_line(config, property_name) {
        Some(i) => {
            let line = &config[i];
            let j = find_char(line.as_str(), '=');
            proof {
                lemma_idx_of_props(line@, '=');
            }
            j < line.as_str().unicode_len()
        },
        None => false,
    }
}

fn read_property(config: &Vec<String>, property_name: &str) -> (value: String)
    requires
        spec_has_property(config.deep_view(), property_name@),
    ensures
        value@ == property_value(config.deep_view(), property_name@),
{
    let ghost cfg = config.deep_view();
    let found = find_matching_line(config, property_name);
    match found {
        Some(i) => {
            let line = &config[i];
            let n = line.as_str().unicode_len();
            let j = find_char(line.as_str(), '=');
            assert(j < n);
            let rest = line.as_str().substring_char(j + 1, n);
            proof {
                assert(rest@ =~= line@.skip(j + 1));
                lemma_idx_of_props(rest@, '=');
            }
            let k = find_char(rest, '=');
            let seg = rest.substring_char(0, k);
            proof {
                assert(seg@ =~= rest@.take(k as int));
            }
            String::from_str(seg)
        },
        None => {
            proof {
                assert(false);
            }
            String::new()
        },
    }
}

/// The value of `property_name` in `config`: the text between the first `=`
/// of the first line containing the name and the next `=` or end of line.
pub fn read_config_property(config: Vec<String>, property_name: &str) -> (value: String)
    requires
        spec_has_property(config.deep_view(), property_name@),
    ensures
        value@ == property_value(config.deep_view(), property_name@),
{
    read_property(&config, property_name)
}

/// The local bind address: the `server.host` value, a colon, and the
/// `server.port` value.
pub fn get_server_address(config: &Vec<String>) -> (addr: String)
    requires
        spec_has_property(config.deep_view(), "server.host"@),
        spec_has_property(config.deep_view(), "server.port"@),
    ensures
        addr@ == property_value(config.deep_view(), "server.host"@) + ":"@ + property_value(
            config.deep_view(),
            "server.port"@,
        ),
{
    let mut addr = read_property(config, "server.host");
    let port = read_property(config, "server.port");
    addr.append(":");
    addr.append(port.as_str());
    proof {
        assert(addr@ =~= property_value(config.deep_view(), "server.host"@) + ":"@
            + property_value(config.deep_view(), "server.port"@));
    }
    addr
}

/// True iff this node runs as master: the `server.ismasterhost` value is
/// exactly `true`.
pub fn is_masterhost(config: &Vec<String>) -> (master: bool)
    requires
        spec_has_property(config.deep_view(), "server.ismasterhost"@),
    ensures
        master == (property_value(config.deep_view(), "server.ismasterhost"@) == "true"@),
{
    let value = read_property(config, "server.ismasterhost");
    let yes = String::from_str("true");
    value == yes
}

/// The replication interval in milliseconds: the `sync.interval.ms` value
/// read as a decimal number.
pub fn get_sync_interval_ms(config: &Vec<String>) -> (interval: u64)
    requires
        spec_has_property(config.deep_view(), "sync.interval.ms"@),
        property_value(config.deep_view(), "sync.interval.ms"@).len() > 0,
        all_dec_digits(property_value(config.deep_view(), "sync.interval.ms"@)),
        dec_value(property_value(config.deep_view(), "sync.interval.ms"@)) <= u64::MAX,
    ensures
        interval as nat == dec_value(property_value(config.deep_view(), "sync.interval.ms"@)),
{
    let value = read_property(config, "sync.interval.ms");
    match parse_u64_checked(value.as_str()) {
        Some(n) => n,
        None => {
            proof {
                assert(false);
            }
            0
        },
    }
}

/// The configured replica addresses: the `replicas.addr` value split on
/// commas, with empty entries filtered out, in order.
pub fn get_replicas_addr(config: &Vec<String>) -> (replicas: Vec<String>)
    requires
        spec_has_property(config.deep_view(), "replicas.addr"@),
    ensures
        replicas.deep_view() == non_empty_parts(
            split_on_comma(property_value(config.deep_view(), "replicas.addr"@)),
        ),
{
    let value = read_property(config, "replicas.addr");
    let ghost v = value@;
    let n = value.as_str().unicode_len();
    let mut out: Vec<String> = Vec::new();
    let mut pos: usize = 0;
    let mut finished = false;
    proof {
        assert(out.deep_view() =~= Seq::<Seq<char>>::empty());
        assert(v.skip(0) =~= v);
        assert(Seq::<Seq<char>>::empty() + non_empty_parts(split_on_comma(v)) =~= non_empty_parts(
            split_on_comma(v),
        ));
    }
    while !finished
        invariant
            pos <= n,
            n == v.len(),
            value@ == v,
            !finished ==> out.deep_view() + non_empty_parts(split_on_comma(v.skip(pos as int)))
                == non_empty_parts(split_on_comma(v)),
            finished ==> out.deep_view() == non_empty_parts(split_on_comma(v)),
        decreases n - pos, (if finished { 0int } else { 1int }),
    {
        let ghost out0 = out.deep_view();
        let rest = value.as_str().substring_char(pos, n);
        let ghost r = v.skip(pos as int);
        proof {
            assert(rest@ =~= r);
        }
        let rn = n - pos;
        let j = find_char(rest, ',');
        proof {
            lemma_idx_of_props(r, ',');
        }
        if j > 0 {
            let seg = rest.substring_char(0, j);
            proof {
                assert(seg@ =~= r.take(j as int));
            }
            out.push(String::from_str(seg));
        }
        if j == rn {
            finished = true;
            proof {
                assert(split_on_comma(r) == seq![r]);
                lemma_non_empty_one(r);
                if r.len() > 0 {
                    assert(r.take(j as int) =~= r);
                    assert(out.deep_view() =~= out0.push(r));
                    assert(out0.push(r) =~= out0 + seq![r]);
                } else {
                    assert(out.deep_view() + non_empty_parts(split_on_comma(v.skip(pos as int)))
                        == non_empty_parts(split_on_comma(v)));
                    assert(out.deep_view() + Seq::<Seq<char>>::empty() =~= out.deep_view());
                }
            }
        } else {
            pos = pos + j + 1;
            proof {
                let tk = r.take(j as int);
                assert(split_on_comma(r) == seq![tk] + split_on_comma(r.skip(j + 1)));
                assert(r.skip(j + 1) =~= v.skip(pos as int));
                lemma_non_empty_concat(seq![tk], split_on_comma(v.skip(pos as int)));
                lemma_non_empty_one(tk);
                if j > 0 {
                    assert(out.deep_view() =~= out0.push(tk));
                    assert(out0.push(tk) =~= out0 + seq![tk]);
                    assert((out0 + seq![tk]) + non_empty_parts(split_on_comma(v.skip(pos as int)))
                        =~= out0 + (seq![tk] + non_empty_parts(split_on_comma(v.skip(pos as int)))));
                } else {
                    assert(tk.len() == 0);
                    assert(seq![tk] + split_on_comma(v.skip(pos as int)) =~= split_on_comma(r));
                }
            }
        }
    }
    out
}

} // verus!
