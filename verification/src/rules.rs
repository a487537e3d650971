//! The `A2S_RULES` response: the server's configuration as name/value pairs.
use crate::errors::{Error, ErrorView};
use crate::wire::{
    agrees_msg, cstring_bytes, le_bytes, lemma_assoc, lemma_cstring_pop, lemma_le_bytes_len,
    lemma_pow256_values, lemma_u8_pop, lemma_uint_pop, no_nul, push_cstring, push_uint,
    read_cstring, read_u16, read_u8, spec_cstring, spec_u16, spec_u8,
};
use crate::HEADER_RULES;
use vstd::prelude::*;

pub mod arma3;

verus! {

/// The `A2S_RULES` request, without a challenge.
pub const RULES_REQUEST: [u8; 5] = [0xFF, 0xFF, 0xFF, 0xFF, 0x56];

/// One server rule. Name and value are raw bytes, as sent.
#[derive(Debug, Clone)]
pub struct Rule {
    /// Name of the rule.
    pub name: Vec<u8>,
    /// Value of the rule.
    pub value: Vec<u8>,
}

pub struct RuleView {
    pub name: Seq<u8>,
    pub value: Seq<u8>,
}

impl View for Rule {
    type V = RuleView;

    open spec fn view(&self) -> RuleView {
        RuleView { name: self.name@, value: self.value@ }
    }
}

/// The views of a list of rules.
pub open spec fn rules_view(rules: Seq<Rule>) -> Seq<RuleView> {
    rules.map_values(|r: Rule| r@)
}

/// The encoding of one rule: its name and its value, each NUL-terminated.
pub open spec fn rule_bytes(r: RuleView) -> Seq<u8> {
    cstring_bytes(r.name) + cstring_bytes(r.value)
}

/// The encodings of the rules, one after the other.
pub open spec fn rules_bytes(rs: Seq<RuleView>) -> Seq<u8>
    decreases rs.len(),
{
    if rs.len() == 0 {
        Seq::empty()
    } else {
        rules_bytes(rs.drop_last()) + rule_bytes(rs.last())
    }
}

/// The encoding of a rules response from its header byte on: header `0x45`,
/// the number of rules (modulo 2^16) and the rules.
pub open spec fn rules_payload(rs: Seq<RuleView>) -> Seq<u8> {
    seq![HEADER_RULES] + le_bytes(rs.len() % 0x1_0000, 2) + rules_bytes(rs)
}

/// The encoding of a rules response as a single-packet datagram.
pub open spec fn rules_message(rs: Seq<RuleView>) -> Seq<u8> {
    seq![0xFFu8, 0xFF, 0xFF, 0xFF] + rules_payload(rs)
}

/// The size of one rule's encoding, as `size_hint` computes it.
pub open spec fn rule_size(r: RuleView) -> int {
    r.name.len() + 1 + r.value.len() + 1int
}

/// The sum of the sizes of the rules.
pub open spec fn rules_size(rs: Seq<RuleView>) -> int
    decreases rs.len(),
{
    if rs.len() == 0 {
        0
    } else {
        rules_size(rs.drop_last()) + rule_size(rs.last())
    }
}

/// The size of a rules message, as `vec_size_hint` computes it.
pub open spec fn rules_message_size(rs: Seq<RuleView>) -> int {
    5 + 2 + rules_size(rs)
}

/// Reads `n` rules, one after the other; reading a rule never fails, as a
/// string that runs to the end of the input ends there.
pub open spec fn spec_rule_items(s: Seq<u8>, n: nat) -> Seq<RuleView>
    decreases n,
{
    if n == 0 {
        Seq::empty()
    } else {
        let (name, r) = spec_cstring(s);
        let (value, r) = spec_cstring(r);
        seq![RuleView { name, value }] + spec_rule_items(r, (n - 1) as nat)
    }
}

/// The decoding of an `A2S_RULES` response that starts at its header byte:
/// header `0x45`, the number of rules, then the rules.
pub open spec fn spec_parse_rules(s: Seq<u8>) -> Result<Seq<RuleView>, ErrorView> {
    match spec_u8(s) {
        Err(e) => Err(e),
        Ok((h, r)) => if h != HEADER_RULES {
            Err(ErrorView::UnexpectedHeader { expected: HEADER_RULES, actual: h })
        } else {
            match spec_u16(r) {
                Err(e) => Err(e),
                Ok((count, r)) => Ok(spec_rule_items(r, count as nat)),
            }
        },
    }
}

/// A list of rules that its encoding carries faithfully: names and values
/// without NUL bytes, and no more rules than a 16-bit count can say.
pub open spec fn rules_wf(rs: Seq<RuleView>) -> bool {
    &&& rs.len() < 0x1_0000
    &&& rules_no_nul(rs)
}

/// Names and values hold no NUL byte.
pub open spec fn rules_no_nul(rs: Seq<RuleView>) -> bool {
    forall|i: int| 0 <= i < rs.len() ==> no_nul(#[trigger] rs[i].name) && no_nul(rs[i].value)
}

proof fn lemma_rules_bytes_len(rs: Seq<RuleView>)
    ensures
        rules_bytes(rs).len() == rules_size(rs),
    decreases rs.len(),
{
    if rs.len() > 0 {
        lemma_rules_bytes_len(rs.drop_last());
    }
}

proof fn lemma_rules_size_prefix(rs: Seq<RuleView>, i: int)
    requires
        0 <= i <= rs.len(),
    ensures
        0 <= rules_size(rs.take(i)) <= rules_size(rs),
    decreases rs.len() - i,
{
    if i < rs.len() {
        lemma_rules_size_prefix(rs, i + 1);
        assert(rs.take(i + 1).drop_last() =~= rs.take(i));
    } else {
        assert(rs.take(i) =~= rs);
    }
    lemma_rules_size_nonneg(rs.take(i));
}

proof fn lemma_rules_size_nonneg(rs: Seq<RuleView>)
    ensures
        rules_size(rs) >= 0,
    decreases rs.len(),
{
    if rs.len() > 0 {
        lemma_rules_size_nonneg(rs.drop_last());
    }
}

/// The size hint of a rules message is the length of its encoding.
pub proof fn lemma_rules_size_is_len(rs: Seq<RuleView>)
    ensures
        rules_message_size(rs) == rules_message(rs).len(),
{
    lemma_rules_bytes_len(rs);
    lemma_le_bytes_len(rs.len() % 0x1_0000, 2);
}

/// The size hint of a rule is the length of its encoding.
pub proof fn lemma_rule_size_is_len(r: RuleView)
    ensures
        rule_size(r) == rule_bytes(r).len(),
{
}

impl Rule {
    /// The number of bytes that `to_bytes` produces.
    pub fn size_hint(&self) -> (r: usize)
        requires
            rule_size(self@) <= usize::MAX,
        ensures
            r == rule_size(self@),
            r == rule_bytes(self@).len(),
    {
        proof {
            lemma_rule_size_is_len(self@);
        }
        self.name.len() + 1 + self.value.len() + 1
    }

    /// Appends the encoding of this rule to `w`.
    pub fn write(&self, w: &mut Vec<u8>) -> (r: Result<(), Error>)
        ensures
            r is Ok,
            final(w)@ == old(w)@ + rule_bytes(self@),
    {
        push_cstring(w, self.name.as_slice());
        push_cstring(w, self.value.as_slice());
        proof {
            assert(w@ =~= old(w)@ + rule_bytes(self@));
        }
        Ok(())
    }

    /// The encoding of this rule.
    pub fn to_bytes(&self) -> (r: Vec<u8>)
        requires
            rule_size(self@) <= usize::MAX,
        ensures
            r@ == rule_bytes(self@),
    {
        let mut bytes = Vec::with_capacity(self.size_hint());
        let _ = self.write(&mut bytes);
        proof {
            assert(bytes@ =~= rule_bytes(self@));
        }
        bytes
    }

    /// The number of bytes that `vec_to_bytes` produces for these rules.
    pub fn vec_size_hint(rules: &[Self]) -> (r: usize)
        requires
            rules_message_size(rules_view(rules@)) <= usize::MAX,
        ensures
            r == rules_message_size(rules_view(rules@)),
            r == rules_message(rules_view(rules@)).len(),
    {
        proof {
            lemma_rules_size_is_len(rules_view(rules@));
        }
        let ghost rs = rules_view(rules@);
        let mut sum: usize = 0;
        let mut i: usize = 0;
        while i < rules.len()
            invariant
                i <= rules.len(),
                rs == rules_view(rules@),
                rules_message_size(rs) <= usize::MAX,
                sum == rules_size(rs.take(i as int)),
            decreases rules.len() - i,
        {
            proof {
                lemma_rules_size_prefix(rs, i + 1);
                assert(rs.take(i + 1).drop_last() =~= rs.take(i as int));
                assert(rs[i as int] == rules@[i as int]@);
            }
            sum = sum + rules[i].size_hint();
            i = i + 1;
        }
        proof {
            assert(rs.take(i as int) =~= rs);
        }
        5 + 2 + sum
    }

    /// Appends the single-packet encoding of a rules response holding these
    /// rules to `w`. The count is written modulo 2^16.
    pub fn write_vec(rules: &[Self], w: &mut Vec<u8>) -> (r: Result<(), Error>)
        ensures
            r is Ok,
            final(w)@ == old(w)@ + rules_message(rules_view(rules@)),
    {
        let ghost rs = rules_view(rules@);
        w.push(0xFF);
        w.push(0xFF);
        w.push(0xFF);
        w.push(0xFF);
        w.push(HEADER_RULES);
        push_uint(w, (rules.len() % 0x1_0000) as u64, 2);
        let ghost head = w@;
        let mut i: usize = 0;
        while i < rules.len()
            invariant
                i <= rules.len(),
                rs == rules_view(rules@),
                w@ == head + rules_bytes(rs.take(i as int)),
            decreases rules.len() - i,
        {
            let _ = rules[i].write(w);
            proof {
                assert(rs.take(i + 1).drop_last() =~= rs.take(i as int));
                assert(rs[i as int] == rules@[i as int]@);
                lemma_assoc(head, rules_bytes(rs.take(i as int)), rule_bytes(rs[i as int]));
            }
            i = i + 1;
        }
        proof {
            assert(rs.take(i as int) =~= rs);
            assert(w@ =~= old(w)@ + rules_message(rs));
        }
        Ok(())
    }

    /// The single-packet encoding of a rules response holding these rules.
    pub fn vec_to_bytes(rules: Vec<Self>) -> (r: Vec<u8>)
        requires
            rules_message_size(rules_view(rules@)) <= usize::MAX,
        ensures
            r@ == rules_message(rules_view(rules@)),
    {
        let mut bytes = Vec::with_capacity(Self::vec_size_hint(rules.as_slice()));
        let _ = Self::write_vec(rules.as_slice(), &mut bytes);
        proof {
            assert(bytes@ =~= rules_message(rules_view(rules@)));
        }
        bytes
    }

    /// Decodes an `A2S_RULES` response that starts at its header byte (`0x45`).
    pub fn from_reader(data: &[u8]) -> (r: Result<Vec<Rule>, Error>)
        ensures
            match r {
                Ok(v) => spec_parse_rules(data@) == Ok::<Seq<RuleView>, ErrorView>(rules_view(v@)),
                Err(e) => spec_parse_rules(data@) == Err::<Seq<RuleView>, ErrorView>(e@),
            },
    {
        proof {
            assert(data@.skip(0) =~= data@);
        }
        let (h, p) = read_u8(data, 0)?;
        if h != HEADER_RULES {
            return Err(Error::UnexpectedHeader { expected: HEADER_RULES, actual: h });
        }
        let (count, p) = read_u16(data, p)?;
        let mut rules: Vec<Rule> = Vec::with_capacity(count as usize);
        let mut pos = p;
        let mut i: u16 = 0;
        let ghost r0 = data@.skip(p as int);
        while i < count
            invariant
                i <= count,
                pos <= data.len(),
                rules_view(rules@) + spec_rule_items(data@.skip(pos as int), (count - i) as nat)
                    == spec_rule_items(r0, count as nat),
            decreases count - i,
        {
            let (name, q) = read_cstring(data, pos);
            let (value, q2) = read_cstring(data, q);
            let ghost before = rules_view(rules@);
            let ghost rest = spec_rule_items(data@.skip(q2 as int), (count - i - 1) as nat);
            rules.push(Rule { name, value });
            proof {
                assert(rules_view(rules@) =~= before.push(RuleView { name: name@, value: value@ }));
                assert(before + (seq![RuleView { name: name@, value: value@ }] + rest) =~= rules_view(
                    rules@,
                ) + rest);
            }
            pos = q2;
            i = i + 1;
        }
        proof {
            assert(rules_view(rules@) + Seq::<RuleView>::empty() =~= rules_view(rules@));
        }
        Ok(rules)
    }

    /// Decodes an `A2S_RULES` response held in a buffer (the whole buffer is
    /// read). Kept for older callers; `from_reader` is the one to use.
    pub fn from_cursor(data: Vec<u8>) -> (r: Result<Vec<Rule>, Error>)
        ensures
            match r {
                Ok(v) => spec_parse_rules(data@) == Ok::<Seq<RuleView>, ErrorView>(rules_view(v@)),
                Err(e) => spec_parse_rules(data@) == Err::<Seq<RuleView>, ErrorView>(e@),
            },
    {
        Self::from_reader(data.as_slice())
    }
}

/// Reading `n` rules written one after the other gives them back, with the
/// bytes after them untouched.
proof fn lemma_rule_items_pop(rs: Seq<RuleView>, rest: Seq<u8>)
    requires
        rules_no_nul(rs),
    ensures
        spec_rule_items(rules_bytes(rs) + rest, rs.len()) == rs,
    decreases rs.len(),
{
    if rs.len() > 0 {
        // Peel the first rule off the front.
        let first = rs[0];
        let tail = rs.drop_first();
        lemma_rules_bytes_front(rs);
        let after = rules_bytes(tail) + rest;
        lemma_assoc(rule_bytes(first), rules_bytes(tail), rest);
        lemma_assoc(cstring_bytes(first.name), cstring_bytes(first.value), after);
        assert(no_nul(rs[0].name) && no_nul(rs[0].value));
        lemma_cstring_pop(first.name, cstring_bytes(first.value) + after);
        lemma_cstring_pop(first.value, after);
        assert forall|i: int| 0 <= i < tail.len() implies no_nul(#[trigger] tail[i].name) && no_nul(
            tail[i].value,
        ) by {
            assert(tail[i] == rs[i + 1]);
        }
        assert(rules_no_nul(tail));
        lemma_rule_items_pop(tail, rest);
        assert(seq![first] + tail =~= rs);
    } else {
        assert(rs =~= Seq::<RuleView>::empty());
    }
}

/// The encoding of a non-empty list starts with the encoding of its first rule.
proof fn lemma_rules_bytes_front(rs: Seq<RuleView>)
    requires
        rs.len() > 0,
    ensures
        rules_bytes(rs) == rule_bytes(rs[0]) + rules_bytes(rs.drop_first()),
    decreases rs.len(),
{
    if rs.len() == 1 {
        assert(rs.drop_last() =~= Seq::<RuleView>::empty());
        assert(rs.drop_first() =~= Seq::<RuleView>::empty());
        assert(rules_bytes(rs) =~= rule_bytes(rs[0]) + rules_bytes(rs.drop_first()));
    } else {
        lemma_rules_bytes_front(rs.drop_last());
        assert(rs.drop_last().drop_first() =~= rs.drop_first().drop_last());
        assert(rs.drop_last()[0] == rs[0]);
        assert(rs.drop_first().last() == rs.last());
        lemma_assoc(
            rule_bytes(rs[0]),
            rules_bytes(rs.drop_first().drop_last()),
            rule_bytes(rs.last()),
        );
    }
}

/// Decoding an encoded rules response gives the rules back: for every list
/// of fewer than 2^16 rules whose names and values hold no NUL byte,
/// decoding the bytes after the 4-byte single-packet header of its encoding
/// yields the same list.
pub proof fn lemma_rules_roundtrip(rs: Seq<RuleView>)
    requires
        rules_wf(rs),
    ensures
        spec_parse_rules(rules_payload(rs)) == Ok::<Seq<RuleView>, ErrorView>(rs),
        rules_message(rs).skip(4) == rules_payload(rs),
{
    assert(rules_message(rs).skip(4) =~= rules_payload(rs));
    let body = rules_bytes(rs);
    let cnt = le_bytes(rs.len() % 0x1_0000, 2);
    lemma_assoc(seq![HEADER_RULES], cnt, body);
    lemma_u8_pop(HEADER_RULES, cnt + body);
    lemma_pow256_values();
    lemma_uint_pop(rs.len() % 0x1_0000, 2, body);
    assert(body =~= body + Seq::<u8>::empty());
    lemma_rule_items_pop(rs, Seq::empty());
}


/// The rules go on the wire in their order, first rule first, each as its
/// NUL-terminated name followed by its NUL-terminated value; no rules give no
/// bytes.
pub proof fn lemma_rules_wire_order(r: RuleView, rs: Seq<RuleView>)
    ensures
        rules_bytes(Seq::<RuleView>::empty()) == Seq::<u8>::empty(),
        rules_bytes(seq![r] + rs) == r.name + seq![0u8] + r.value + seq![0u8] + rules_bytes(rs),
    decreases rs.len(),
{
    let all = seq![r] + rs;
    if rs.len() == 0 {
        assert(all.drop_last() =~= Seq::<RuleView>::empty());
        assert(rs =~= Seq::<RuleView>::empty());
    } else {
        lemma_rules_wire_order(r, rs.drop_last());
        assert(all.drop_last() =~= seq![r] + rs.drop_last());
        assert(all.last() == rs.last());
    }
    assert(rules_bytes(all) =~= r.name + seq![0u8] + r.value + seq![0u8] + rules_bytes(rs));
}

/// The wire layout of a rules response: the 4-byte single-packet header
/// `FF FF FF FF`, the header byte `0x45`, the number of rules modulo 2^16
/// (2 bytes, little-endian), then the rules.
pub proof fn lemma_rules_message_layout(rs: Seq<RuleView>)
    ensures
        rules_message(rs) == seq![0xFFu8, 0xFF, 0xFF, 0xFF, 0x45] + le_bytes(rs.len() % 0x1_0000, 2)
            + rules_bytes(rs),
{
    assert(rules_message(rs) =~= seq![0xFFu8, 0xFF, 0xFF, 0xFF, 0x45] + le_bytes(
        rs.len() % 0x1_0000,
        2,
    ) + rules_bytes(rs));
}

} // verus!
