//! What Tor tells a managed transport, and what the transport tells Tor.
use crate::text::{
    char_contents, chars_of, copy_range, fields, law_fields_join_again, law_fields_of_two_parts,
    split_fields, text_of,
};
use vstd::prelude::*;
use vstd::string::*;

verus! {

/// Handshakes that may be in progress at once.
pub const MAX_CONCURRENT_HANDSHAKES: usize = 512;

/// Whether two texts are the same.
fn same(a: &[char], b: &[char]) -> (r: bool)
    ensures
        r == (a@ == b@),
{
    if a.len() != b.len() {
        return false;
    }
    let mut i: usize = 0;
    while i < a.len()
        invariant
            i <= a@.len(),
            a@.len() == b@.len(),
            forall|j: int| 0 <= j < i ==> a@[j] == b@[j],
        decreases a@.len() - i,
    {
        if a[i] != b[i] {
            return false;
        }
        i = i + 1;
    }
    assert(a@ =~= b@);
    true
}

/// Whether a list of transports asks for this one: it is a star, or one of its
/// fields is the transport's name.
pub open spec fn is_requested(list: Seq<char>) -> bool {
    list == "*"@ || fields(list, ',').contains("mixtor"@)
}

/// Whether a list of transports asks for this one.
pub fn transport_requested(list: &str) -> (b: bool)
    ensures
        b == is_requested(list@),
{
    let chars = chars_of(list);
    let star = chars_of("*");
    if same(chars.as_slice(), star.as_slice()) {
        return true;
    }
    let name = chars_of("mixtor");
    let parts = split_fields(chars.as_slice(), ',');
    let ghost all = fields(list@, ',');
    let mut i: usize = 0;
    while i < parts.len()
        invariant
            i <= parts@.len(),
            char_contents(parts@) == all,
            all == fields(list@, ','),
            name@ == "mixtor"@,
            forall|j: int| 0 <= j < i ==> all[j] != "mixtor"@,
        decreases parts@.len() - i,
    {
        assert(all[i as int] == parts@[i as int]@);
        if same(parts[i].as_slice(), name.as_slice()) {
            assert(all.contains(all[i as int]));
            return true;
        }
        i = i + 1;
    }
    assert(all.len() == parts@.len());
    false
}

/// The first position of a hyphen, if there is one.
pub open spec fn hyphen_in(s: Seq<char>, from: nat) -> Option<nat>
    decreases s.len() - from,
{
    if from >= s.len() {
        None
    } else if s[from as int] == '-' {
        Some(from)
    } else {
        hyphen_in(s, from + 1)
    }
}

/// The address in an entry for this transport: what follows the first hyphen,
/// where the transport's name stands before it.
pub open spec fn address_in(entry: Seq<char>) -> Option<Seq<char>> {
    match hyphen_in(entry, 0) {
        Some(at) => if entry.take(at as int) == "mixtor"@ {
            Some(entry.skip((at + 1) as int))
        } else {
            None
        },
        None => None,
    }
}

/// The addresses for this transport among the first `n` entries.
pub open spec fn addresses_in(entries: Seq<Seq<char>>, n: nat) -> Seq<Seq<char>>
    decreases n,
{
    if n == 0 {
        Seq::empty()
    } else {
        let before = addresses_in(entries, (n - 1) as nat);
        match address_in(entries[n - 1]) {
            Some(address) => before.push(address),
            None => before,
        }
    }
}

/// The first position of a hyphen, if there is one.
fn find_hyphen(s: &[char]) -> (r: Option<usize>)
    ensures
        match r {
            Some(at) => at < s@.len() && hyphen_in(s@, 0) == Some(at as nat),
            None => hyphen_in(s@, 0) is None,
        },
{
    let mut i: usize = 0;
    while i < s.len()
        invariant
            i <= s@.len(),
            hyphen_in(s@, 0) == hyphen_in(s@, i as nat),
        decreases s@.len() - i,
    {
        if s[i] == '-' {
            return Some(i);
        }
        i = i + 1;
    }
    None
}

/// The texts of a sequence of strings.
pub open spec fn texts(v: Seq<String>) -> Seq<Seq<char>> {
    v.map_values(|s: String| s@)
}

/// The addresses that a list of entries names for this transport, in order. The
/// first that is an address is to be used.
pub fn bind_candidates(list: &str) -> (r: Vec<String>)
    ensures
        texts(r@) == addresses_in(fields(list@, ','), fields(list@, ',').len()),
{
    let chars = chars_of(list);
    let entries = split_fields(chars.as_slice(), ',');
    let ghost all = fields(list@, ',');
    let name = chars_of("mixtor");
    let mut found: Vec<String> = Vec::new();
    assert(texts(found@) =~= Seq::empty());
    let mut i: usize = 0;
    while i < entries.len()
        invariant
            i <= entries@.len(),
            char_contents(entries@) == all,
            name@ == "mixtor"@,
            texts(found@) == addresses_in(all, i as nat),
        decreases entries@.len() - i,
    {
        let entry = entries[i].as_slice();
        assert(all[i as int] == entry@);
        if let Some(at) = find_hyphen(entry) {
            let transport = copy_range(entry, 0, at);
            assert(transport@ =~= entry@.take(at as int));
            if same(transport.as_slice(), name.as_slice()) {
                let end: usize = entry.len();
                let address = copy_range(entry, at + 1, end);
                assert(address@ =~= entry@.skip(at + 1));
                let ghost before = found@;
                found.push(text_of(address.as_slice()));
                assert(texts(found@) =~= texts(before).push(address@));
            }
        }
        i = i + 1;
    }
    assert(all.len() == entries@.len());
    found
}

/// The line by which a server announces itself.
pub fn server_method_line(address: &str, cert: &str) -> (s: String)
    ensures
        s@ == "SMETHOD mixtor "@ + address@ + " ARGS:cert="@ + cert@,
{
    let mut s = String::from_str("SMETHOD mixtor ");
    s.append(address);
    s.append(" ARGS:cert=");
    s.append(cert);
    s
}

/// The line by which a client announces itself.
pub fn client_method_line(address: &str) -> (s: String)
    ensures
        s@ == "CMETHOD mixtor socks5 "@ + address@,
{
    let mut s = String::from_str("CMETHOD mixtor socks5 ");
    s.append(address);
    s
}

/// The server's identity for a connection: the one that the connection names,
/// or else the one configured.
pub fn server_identity(cert: Option<[u8; 32]>, fallback: Option<[u8; 32]>) -> (key: Option<
    [u8; 32],
>)
    ensures
        key == if cert is Some {
            cert
        } else {
            fallback
        },
{
    match cert {
        Some(key) => Some(key),
        None => fallback,
    }
}

/// This transport is asked for wherever its name stands in a list, alone, first,
/// last or between others, and by a star; a list that asks for it is a star or
/// holds its name as a field.
pub proof fn law_names_are_found_in_lists(a: Seq<char>, b: Seq<char>)
    ensures
        is_requested("mixtor"@),
        is_requested("*"@),
        is_requested(a.push(',') + "mixtor"@),
        is_requested("mixtor"@.push(',') + b),
        is_requested(a.push(',') + ("mixtor"@.push(',') + b)),
        is_requested(a) && a != "*"@ ==> exists|i: int|
            0 <= i < fields(a, ',').len() && #[trigger] fields(a, ',')[i] == "mixtor"@,
        crate::text::joined(fields(a, ','), ',') == a,
{
    reveal_strlit("mixtor");
    let name = "mixtor"@;
    assert forall|i: int| 0 <= i < name.len() implies name[i] != ',' by {}
    lemma_one_name(name);
    law_fields_of_two_parts(a, name, ',');
    law_fields_of_two_parts(name, b, ',');
    law_fields_of_two_parts(a, name.push(',') + b, ',');
    law_fields_join_again(a, ',');
    let fa = fields(a, ',');
    assert(fields(name, ',') == seq![name]);
    assert(fields(name, ',')[0] == name);
    assert((fa + seq![name])[fa.len() as int] == name);
    assert((seq![name] + fields(b, ','))[0] == name);
    assert((fa + (seq![name] + fields(b, ',')))[fa.len() as int] == name);
}

proof fn lemma_one_name(s: Seq<char>)
    requires
        forall|i: int| 0 <= i < s.len() ==> s[i] != ',',
    ensures
        fields(s, ',') == seq![s],
    decreases s.len(),
{
    if s.len() == 0 {
        assert(s =~= Seq::empty());
    } else {
        let t = s.drop_last();
        lemma_one_name(t);
        assert(t.push(s.last()) =~= s);
        assert(fields(s, ',') =~= seq![s]);
    }
}

/// The address of an entry is all that follows the first hyphen, and only entries
/// for this transport have one.
pub proof fn law_addresses_follow_the_name(name: Seq<char>, address: Seq<char>)
    requires
        forall|i: int| 0 <= i < name.len() ==> name[i] != '-',
    ensures
        address_in(name.push('-') + address) == if name == "mixtor"@ {
            Some(address)
        } else {
            None
        },
        address_in(name) is None,
{
    let entry = name.push('-') + address;
    lemma_hyphen(entry, name.len(), 0);
    lemma_no_hyphen(name, 0);
    assert(entry.take(name.len() as int) =~= name);
    assert(entry.skip(name.len() as int + 1) =~= address);
}

proof fn lemma_hyphen(s: Seq<char>, at: nat, from: nat)
    requires
        from <= at < s.len(),
        s[at as int] == '-',
        forall|i: int| 0 <= i < at ==> s[i] != '-',
    ensures
        hyphen_in(s, from) == Some(at),
    decreases at - from,
{
    if from < at {
        lemma_hyphen(s, at, from + 1);
    }
}

proof fn lemma_no_hyphen(s: Seq<char>, from: nat)
    requires
        forall|i: int| 0 <= i < s.len() ==> s[i] != '-',
    ensures
        hyphen_in(s, from) is None,
    decreases s.len() - from,
{
    if from < s.len() {
        lemma_no_hyphen(s, from + 1);
    }
}

/// The addresses of a list are those of its entries, in order: one entry more
/// adds its address at the end, if it has one.
pub proof fn law_candidates_keep_their_order(entries: Seq<Seq<char>>, entry: Seq<char>)
    ensures
        addresses_in(entries.push(entry), entries.len() + 1) == if address_in(entry) is Some {
            addresses_in(entries, entries.len()).push(address_in(entry)->Some_0)
        } else {
            addresses_in(entries, entries.len())
        },
{
    lemma_addresses_of_prefix(entries, entries.push(entry), entries.len());
}

proof fn lemma_addresses_of_prefix(a: Seq<Seq<char>>, b: Seq<Seq<char>>, n: nat)
    requires
        n <= a.len(),
        n <= b.len(),
        forall|i: int| 0 <= i < n ==> a[i] == b[i],
    ensures
        addresses_in(a, n) == addresses_in(b, n),
    decreases n,
{
    if n > 0 {
        lemma_addresses_of_prefix(a, b, (n - 1) as nat);
    }
}

} // verus!
