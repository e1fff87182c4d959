//! The byte format of the persisted workflow record: six newline-terminated
//! lines in a fixed order, one per field. The first line is `step=` followed
//! by the step's word; each remaining line is the field's key alone when the
//! field is unset, or `key=value` when it is set. A record that loads is
//! saved back byte for byte, and every well-formed state's record loads back
//! to that state; anything else is a malformed-record error, never a silent
//! reset.

use vstd::prelude::*;

use crate::state::line_safe;
use crate::state::opt_line_safe;
use crate::state::step_rank;
use crate::state::StateModel;
use crate::state::Step;
use crate::state::WorkflowState;

verus! {

/// Why a persisted record failed to load.
#[derive(Clone, Copy, Debug, PartialEq, Eq, Structural)]
pub enum CodecError {
    /// The bytes are not the record of any well-formed state.
    Malformed,
}

/// The five optional fields of the record, in the order their lines stand in.
#[derive(Clone, Copy, Debug, PartialEq, Eq, Structural)]
pub enum FieldKey {
    Pubkey,
    TokenName,
    TokenSymbol,
    TokenAddress,
    AccountAddress,
}

/// The key of the step line.
pub open spec fn key_step() -> Seq<u8> {
    seq![115u8, 116u8, 101u8, 112u8]
}

/// The key bytes of an optional field's line.
pub open spec fn key_seq(k: FieldKey) -> Seq<u8> {
    match k {
        FieldKey::Pubkey => seq![112u8, 117u8, 98u8, 107u8, 101u8, 121u8],
        FieldKey::TokenName => seq![116u8, 111u8, 107u8, 101u8, 110u8, 95u8, 110u8, 97u8, 109u8, 101u8],
        FieldKey::TokenSymbol => seq![
            116u8, 111u8, 107u8, 101u8, 110u8, 95u8, 115u8, 121u8, 109u8, 98u8, 111u8, 108u8,
        ],
        FieldKey::TokenAddress => seq![
            116u8, 111u8, 107u8, 101u8, 110u8, 95u8, 97u8, 100u8, 100u8, 114u8, 101u8, 115u8, 115u8,
        ],
        FieldKey::AccountAddress => seq![
            97u8, 99u8, 99u8, 111u8, 117u8, 110u8, 116u8, 95u8, 97u8, 100u8, 100u8, 114u8, 101u8, 115u8,
            115u8,
        ],
    }
}

/// The word that names a step on the step line.
pub open spec fn step_word(s: Step) -> Seq<u8> {
    match s {
        Step::Start => seq![115u8, 116u8, 97u8, 114u8, 116u8],
        Step::AwaitDeposit => seq![
            97u8, 119u8, 97u8, 105u8, 116u8, 95u8, 100u8, 101u8, 112u8, 111u8, 115u8, 105u8, 116u8,
        ],
        Step::CreateToken => seq![
            99u8, 114u8, 101u8, 97u8, 116u8, 101u8, 95u8, 116u8, 111u8, 107u8, 101u8, 110u8,
        ],
        Step::Done => seq![100u8, 111u8, 110u8, 101u8],
    }
}

/// The step line, without its newline.
pub open spec fn step_line(s: Step) -> Seq<u8> {
    key_step() + seq![61u8] + step_word(s)
}

/// An optional field's line, without its newline: the key alone when the
/// field is unset, `key=value` when it is set.
pub open spec fn field_content(key: Seq<u8>, v: Option<Seq<u8>>) -> Seq<u8> {
    match v {
        Option::None => key,
        Option::Some(x) => key + seq![61u8] + x,
    }
}

/// The six lines of a state's record, in order, without their newlines.
pub open spec fn encoded_lines(m: StateModel) -> Seq<Seq<u8>> {
    seq![
        step_line(m.step),
        field_content(key_seq(FieldKey::Pubkey), m.pubkey),
        field_content(key_seq(FieldKey::TokenName), m.token_name),
        field_content(key_seq(FieldKey::TokenSymbol), m.token_symbol),
        field_content(key_seq(FieldKey::TokenAddress), m.token_address),
        field_content(key_seq(FieldKey::AccountAddress), m.account_address),
    ]
}

/// Joins lines into file bytes, terminating every line with a newline.
pub open spec fn join_lines(ls: Seq<Seq<u8>>) -> Seq<u8>
    decreases ls.len(),
{
    if ls.len() == 0 {
        Seq::empty()
    } else {
        ls[0] + seq![10u8] + join_lines(ls.drop_first())
    }
}

/// The record bytes of a state: its six lines joined.
pub open spec fn spec_encode(m: StateModel) -> Seq<u8> {
    join_lines(encoded_lines(m))
}

/// Appending one more line extends the joined bytes by that line and its
/// terminator.
proof fn lemma_join_push(ls: Seq<Seq<u8>>, l: Seq<u8>)
    ensures
        join_lines(ls.push(l)) == join_lines(ls) + l + seq![10u8],
    decreases ls.len(),
{
    if ls.len() == 0 {
        assert(ls.push(l).drop_first() =~= ls);
        assert(join_lines(ls.push(l)) =~= join_lines(ls) + l + seq![10u8]);
    } else {
        assert(ls.push(l).drop_first() =~= ls.drop_first().push(l));
        lemma_join_push(ls.drop_first(), l);
        assert(join_lines(ls.push(l)) =~= join_lines(ls) + l + seq![10u8]);
    }
}

/// The joined bytes of at least one line end in a newline and are nonempty.
proof fn lemma_join_last(ls: Seq<Seq<u8>>)
    requires
        ls.len() > 0,
    ensures
        join_lines(ls).len() > 0,
        join_lines(ls)[join_lines(ls).len() - 1] == 10u8,
    decreases ls.len(),
{
    if ls.len() == 1 {
        assert(join_lines(ls.drop_first()) =~= Seq::<u8>::empty());
        assert(join_lines(ls) =~= ls[0] + seq![10u8]);
    } else {
        lemma_join_last(ls.drop_first());
        let rest = join_lines(ls.drop_first());
        assert(join_lines(ls)[join_lines(ls).len() - 1] == rest[rest.len() - 1]);
    }
}

/// Two newline-free lines followed by a newline and a remainder can only be
/// equal bytes when the lines and the remainders agree.
proof fn lemma_line_cancel(a: Seq<u8>, x: Seq<u8>, b: Seq<u8>, y: Seq<u8>)
    requires
        line_safe(a),
        line_safe(b),
        a + seq![10u8] + x == b + seq![10u8] + y,
    ensures
        a == b,
        x == y,
{
    let s = a + seq![10u8] + x;
    if a.len() < b.len() {
        assert(s[a.len() as int] == 10u8);
        assert((b + seq![10u8] + y)[a.len() as int] == b[a.len() as int]);
        assert(false);
    }
    if b.len() < a.len() {
        assert(s[b.len() as int] == 10u8);
        assert((a + seq![10u8] + x)[b.len() as int] == a[b.len() as int]);
        assert(false);
    }
    assert(a =~= b) by {
        assert forall|i: int| 0 <= i < a.len() implies a[i] == b[i] by {
            assert(s[i] == a[i]);
            assert(s[i] == (b + seq![10u8] + y)[i]);
        }
    }
    assert(x =~= y) by {
        assert(s.len() == b.len() + 1 + y.len());
        assert forall|i: int| 0 <= i < x.len() implies x[i] == y[i] by {
            assert(s[a.len() + 1 + i] == x[i]);
            assert(s[a.len() + 1 + i] == (b + seq![10u8] + y)[b.len() + 1 + i]);
        }
    }
}

/// Joining is injective on newline-free lines: equal bytes mean the same
/// lines.
proof fn lemma_join_injective(ls1: Seq<Seq<u8>>, ls2: Seq<Seq<u8>>)
    requires
        forall|i: int| 0 <= i < ls1.len() ==> line_safe(#[trigger] ls1[i]),
        forall|i: int| 0 <= i < ls2.len() ==> line_safe(#[trigger] ls2[i]),
        join_lines(ls1) == join_lines(ls2),
    ensures
        ls1 == ls2,
    decreases ls1.len(),
{
    if ls1.len() == 0 && ls2.len() == 0 {
        assert(ls1 =~= ls2);
    } else if ls1.len() == 0 {
        lemma_join_last(ls2);
        assert(false);
    } else if ls2.len() == 0 {
        lemma_join_last(ls1);
        assert(false);
    } else {
        lemma_line_cancel(ls1[0], join_lines(ls1.drop_first()), ls2[0], join_lines(ls2.drop_first()));
        lemma_join_injective(ls1.drop_first(), ls2.drop_first());
        assert(ls1 =~= ls2) by {
            assert forall|i: int| 0 <= i < ls1.len() implies ls1[i] == ls2[i] by {
                if i > 0 {
                    assert(ls1.drop_first()[i - 1] == ls2.drop_first()[i - 1]);
                }
            }
        }
    }
}

/// A field line under one key can only carry one value.
proof fn lemma_field_content_injective(key: Seq<u8>, v1: Option<Seq<u8>>, v2: Option<Seq<u8>>)
    requires
        field_content(key, v1) == field_content(key, v2),
    ensures
        v1 == v2,
{
    match (v1, v2) {
        (Option::Some(x), Option::Some(y)) => {
            assert(x =~= y) by {
                assert forall|j: int| 0 <= j < x.len() implies x[j] == y[j] by {
                    assert((key + seq![61u8] + x)[key.len() + 1 + j] == x[j]);
                    assert((key + seq![61u8] + y)[key.len() + 1 + j] == y[j]);
                }
            }
        },
        (Option::None, Option::Some(y)) => {
            assert(field_content(key, v2).len() == key.len() + 1 + y.len());
        },
        (Option::Some(x), Option::None) => {
            assert(field_content(key, v1).len() == key.len() + 1 + x.len());
        },
        (Option::None, Option::None) => {},
    }
}

/// Law: a persisted record determines its state. Two well-formed states with
/// the same record bytes are the same state, so loading the saved record of a
/// state can yield nothing but that state.
pub proof fn lemma_record_determines_state(m1: StateModel, m2: StateModel)
    requires
        m1.wf(),
        m2.wf(),
        spec_encode(m1) == spec_encode(m2),
    ensures
        m1 == m2,
{
    lemma_encoded_lines_safe(m1);
    lemma_encoded_lines_safe(m2);
    lemma_join_injective(encoded_lines(m1), encoded_lines(m2));
    assert(step_line(m1.step) == step_line(m2.step));
    assert(m1.step == m2.step) by {
        if m1.step != m2.step {
            assert(step_word(m1.step).len() != step_word(m2.step).len()) by {
                match m1.step {
                    Step::Start => {},
                    Step::AwaitDeposit => {},
                    Step::CreateToken => {},
                    Step::Done => {},
                }
            }
        }
    }
    lemma_field_content_injective(key_seq(FieldKey::Pubkey), m1.pubkey, m2.pubkey);
    lemma_field_content_injective(key_seq(FieldKey::TokenName), m1.token_name, m2.token_name);
    lemma_field_content_injective(key_seq(FieldKey::TokenSymbol), m1.token_symbol, m2.token_symbol);
    lemma_field_content_injective(
        key_seq(FieldKey::TokenAddress),
        m1.token_address,
        m2.token_address,
    );
    lemma_field_content_injective(
        key_seq(FieldKey::AccountAddress),
        m1.account_address,
        m2.account_address,
    );
}

/// Every key and step word is newline-free, so every line of a well-formed
/// state's record is too.
proof fn lemma_encoded_lines_safe(m: StateModel)
    requires
        m.wf(),
    ensures
        forall|i: int| 0 <= i < encoded_lines(m).len() ==> line_safe(#[trigger] encoded_lines(m)[i]),
{
    assert(line_safe(step_line(m.step)));
    assert(line_safe(field_content(key_seq(FieldKey::Pubkey), m.pubkey)));
    assert(line_safe(field_content(key_seq(FieldKey::TokenName), m.token_name)));
    assert(line_safe(field_content(key_seq(FieldKey::TokenSymbol), m.token_symbol)));
    assert(line_safe(field_content(key_seq(FieldKey::TokenAddress), m.token_address)));
    assert(line_safe(field_content(key_seq(FieldKey::AccountAddress), m.account_address)));
}

/// The key bytes of an optional field's line, as a vector.
fn key_bytes(k: FieldKey) -> (r: Vec<u8>)
    ensures
        r@ == key_seq(k),
{
    let mut v: Vec<u8> = Vec::new();
    match k {
        FieldKey::Pubkey => {
            v.push(112u8);
            v.push(117u8);
            v.push(98u8);
            v.push(107u8);
            v.push(101u8);
            v.push(121u8);
            assert(v@ =~= key_seq(k));
        },
        FieldKey::TokenName => {
            v.push(116u8);
            v.push(111u8);
            v.push(107u8);
            v.push(101u8);
            v.push(110u8);
            v.push(95u8);
            v.push(110u8);
            v.push(97u8);
            v.push(109u8);
            v.push(101u8);
            assert(v@ =~= key_seq(k));
        },
        FieldKey::TokenSymbol => {
            v.push(116u8);
            v.push(111u8);
            v.push(107u8);
            v.push(101u8);
            v.push(110u8);
            v.push(95u8);
            v.push(115u8);
            v.push(121u8);
            v.push(109u8);
            v.push(98u8);
            v.push(111u8);
            v.push(108u8);
            assert(v@ =~= key_seq(k));
        },
        FieldKey::TokenAddress => {
            v.push(116u8);
            v.push(111u8);
            v.push(107u8);
            v.push(101u8);
            v.push(110u8);
            v.push(95u8);
            v.push(97u8);
            v.push(100u8);
            v.push(100u8);
            v.push(114u8);
            v.push(101u8);
            v.push(115u8);
            v.push(115u8);
            assert(v@ =~= key_seq(k));
        },
        FieldKey::AccountAddress => {
            v.push(97u8);
            v.push(99u8);
            v.push(99u8);
            v.push(111u8);
            v.push(117u8);
            v.push(110u8);
            v.push(116u8);
            v.push(95u8);
            v.push(97u8);
            v.push(100u8);
            v.push(100u8);
            v.push(114u8);
            v.push(101u8);
            v.push(115u8);
            v.push(115u8);
            assert(v@ =~= key_seq(k));
        },
    }
    v
}

/// The step line, `step=` followed by the step's word, as a vector.
fn step_line_bytes(s: Step) -> (r: Vec<u8>)
    ensures
        r@ == step_line(s),
{
    let mut v: Vec<u8> = Vec::new();
    v.push(115u8);
    v.push(116u8);
    v.push(101u8);
    v.push(112u8);
    v.push(61u8);
    match s {
        Step::Start => {
            v.push(115u8);
            v.push(116u8);
            v.push(97u8);
            v.push(114u8);
            v.push(116u8);
            assert(v@ =~= step_line(s));
        },
        Step::AwaitDeposit => {
            v.push(97u8);
            v.push(119u8);
            v.push(97u8);
            v.push(105u8);
            v.push(116u8);
            v.push(95u8);
            v.push(100u8);
            v.push(101u8);
            v.push(112u8);
            v.push(111u8);
            v.push(115u8);
            v.push(105u8);
            v.push(116u8);
            assert(v@ =~= step_line(s));
        },
        Step::CreateToken => {
            v.push(99u8);
            v.push(114u8);
            v.push(101u8);
            v.push(97u8);
            v.push(116u8);
            v.push(101u8);
            v.push(95u8);
            v.push(116u8);
            v.push(111u8);
            v.push(107u8);
            v.push(101u8);
            v.push(110u8);
            assert(v@ =~= step_line(s));
        },
        Step::Done => {
            v.push(100u8);
            v.push(111u8);
            v.push(110u8);
            v.push(101u8);
            assert(v@ =~= step_line(s));
        },
    }
    v
}

/// An optional field's line as a vector: the key alone, or `key=value`.
fn field_line_bytes(k: FieldKey, v: &Option<Vec<u8>>) -> (r: Vec<u8>)
    ensures
        r@ == field_content(key_seq(k), v.deep_view()),
{
    let mut line = key_bytes(k);
    match v {
        Option::None => {},
        Option::Some(x) => {
            line.push(61u8);
            line.extend_from_slice(x.as_slice());
            assert(line@ =~= field_content(key_seq(k), v.deep_view()));
        },
    }
    line
}

/// Joins line vectors into file bytes, a newline after each line.
fn join_lines_bytes(ls: &Vec<Vec<u8>>) -> (r: Vec<u8>)
    ensures
        r@ == join_lines(ls.deep_view()),
{
    let mut out: Vec<u8> = Vec::new();
    let mut i: usize = 0;
    while i < ls.len()
        invariant
            0 <= i <= ls@.len(),
            ls.deep_view().len() == ls@.len(),
            out@ == join_lines(ls.deep_view().take(i as int)),
        decreases ls@.len() - i,
    {
        out.extend_from_slice(ls[i].as_slice());
        out.push(10u8);
        proof {
            lemma_join_push(ls.deep_view().take(i as int), ls.deep_view()[i as int]);
            assert(ls.deep_view().take(i + 1) =~= ls.deep_view().take(i as int).push(
                ls.deep_view()[i as int],
            ));
            assert(out@ =~= join_lines(ls.deep_view().take(i + 1)));
        }
        i = i + 1;
    }
    proof {
        assert(ls.deep_view().take(ls@.len() as int) =~= ls.deep_view());
    }
    out
}

/// Encodes a well-formed state as the bytes of its persisted record.
pub fn encode_state(st: &WorkflowState) -> (r: Vec<u8>)
    requires
        st@.wf(),
    ensures
        r@ == spec_encode(st@),
{
    let mut lines: Vec<Vec<u8>> = Vec::new();
    lines.push(step_line_bytes(st.step));
    lines.push(field_line_bytes(FieldKey::Pubkey, &st.pubkey));
    lines.push(field_line_bytes(FieldKey::TokenName, &st.token_name));
    lines.push(field_line_bytes(FieldKey::TokenSymbol, &st.token_symbol));
    lines.push(field_line_bytes(FieldKey::TokenAddress, &st.token_address));
    lines.push(field_line_bytes(FieldKey::AccountAddress, &st.account_address));
    proof {
        assert(lines.deep_view().len() == 6);
        assert(lines.deep_view()[0] == lines@[0]@);
        assert(lines.deep_view()[1] == lines@[1]@);
        assert(lines.deep_view()[2] == lines@[2]@);
        assert(lines.deep_view()[3] == lines@[3]@);
        assert(lines.deep_view()[4] == lines@[4]@);
        assert(lines.deep_view()[5] == lines@[5]@);
        assert(lines.deep_view() =~= encoded_lines(st@));
    }
    join_lines_bytes(&lines)
}

/// True exactly when the two byte strings are equal.
fn bytes_eq(a: &Vec<u8>, b: &Vec<u8>) -> (r: bool)
    ensures
        r == (a@ == b@),
{
    if a.len() != b.len() {
        return false;
    }
    let mut i: usize = 0;
    while i < a.len()
        invariant
            0 <= i <= a@.len(),
            a@.len() == b@.len(),
            forall|j: int| 0 <= j < i ==> a@[j] == b@[j],
        decreases a@.len() - i,
    {
        if a[i] != b[i] {
            return false;
        }
        i = i + 1;
    }
    proof {
        assert(a@ =~= b@);
    }
    true
}

/// True exactly when `line` begins with `key`.
fn starts_with(line: &Vec<u8>, key: &Vec<u8>) -> (r: bool)
    ensures
        r == (key@.len() <= line@.len() && line@.subrange(0, key@.len() as int) == key@),
{
    if key.len() > line.len() {
        return false;
    }
    let mut i: usize = 0;
    while i < key.len()
        invariant
            0 <= i <= key@.len(),
            key@.len() <= line@.len(),
            forall|j: int| 0 <= j < i ==> line@[j] == key@[j],
        decreases key@.len() - i,
    {
        if line[i] != key[i] {
            proof {
                assert(line@.subrange(0, key@.len() as int)[i as int] == line@[i as int]);
            }
            return false;
        }
        i = i + 1;
    }
    proof {
        assert(line@.subrange(0, key@.len() as int) =~= key@);
    }
    true
}

/// The bytes of `line` from `start` to its end.
fn tail_from(line: &Vec<u8>, start: usize) -> (r: Vec<u8>)
    requires
        start <= line@.len(),
    ensures
        r@ == line@.subrange(start as int, line@.len() as int),
{
    let mut out: Vec<u8> = Vec::new();
    let mut i: usize = start;
    while i < line.len()
        invariant
            start <= i <= line@.len(),
            out@ == line@.subrange(start as int, i as int),
        decreases line@.len() - i,
    {
        out.push(line[i]);
        proof {
            assert(out@ =~= line@.subrange(start as int, i + 1));
        }
        i = i + 1;
    }
    out
}

/// Splits the record bytes into their newline-terminated lines; refuses
/// bytes whose last line is unterminated.
fn split_lines(bytes: &Vec<u8>) -> (r: Option<Vec<Vec<u8>>>)
    ensures
        match r {
            Option::Some(ls) => {
                &&& join_lines(ls.deep_view()) == bytes@
                &&& forall|i: int|
                    0 <= i < ls.deep_view().len() ==> line_safe(#[trigger] ls.deep_view()[i])
            },
            Option::None => bytes@.len() > 0 && bytes@[bytes@.len() - 1] != 10u8,
        },
{
    let mut lines: Vec<Vec<u8>> = Vec::new();
    let mut cur: Vec<u8> = Vec::new();
    let mut i: usize = 0;
    while i < bytes.len()
        invariant
            0 <= i <= bytes@.len(),
            join_lines(lines.deep_view()) + cur@ == bytes@.take(i as int),
            forall|k: int|
                0 <= k < lines.deep_view().len() ==> line_safe(#[trigger] lines.deep_view()[k]),
            line_safe(cur@),
            cur@.len() > 0 ==> i > 0 && bytes@[i - 1] != 10u8,
        decreases bytes@.len() - i,
    {
        let b = bytes[i];
        if b == 10 {
            proof {
                lemma_join_push(lines.deep_view(), cur@);
                assert(bytes@.take(i + 1) =~= bytes@.take(i as int) + seq![10u8]);
            }
            let ghost old_deep = lines.deep_view();
            let ghost cur_view = cur@;
            lines.push(cur);
            proof {
                assert(lines.deep_view() =~~= old_deep.push(cur_view));
                assert(join_lines(lines.deep_view()) + Seq::<u8>::empty() =~= bytes@.take(
                    i + 1,
                ));
            }
            cur = Vec::new();
        } else {
            cur.push(b);
            proof {
                assert(bytes@.take(i + 1) =~= bytes@.take(i as int).push(bytes@[i as int]));
                assert(join_lines(lines.deep_view()) + cur@ =~= bytes@.take(i + 1));
            }
        }
        i = i + 1;
    }
    proof {
        assert(bytes@.take(bytes@.len() as int) =~= bytes@);
    }
    if cur.len() == 0 {
        proof {
            assert(join_lines(lines.deep_view()) + cur@ =~= join_lines(lines.deep_view()));
        }
        Some(lines)
    } else {
        None
    }
}

/// A newline-free field line keeps its value newline-free.
proof fn lemma_field_value_safe(key: Seq<u8>, v: Option<Seq<u8>>)
    requires
        line_safe(field_content(key, v)),
    ensures
        opt_line_safe(v),
{
    match v {
        Option::None => {},
        Option::Some(x) => {
            assert forall|i: int| 0 <= i < x.len() implies x[i] != 10u8 by {
                assert(field_content(key, v)[key.len() + 1 + i] == x[i]);
            }
        },
    }
}

/// Reads one optional field's line: the key alone is an unset field,
/// `key=value` a set one; anything else is malformed.
fn parse_field_line(line: &Vec<u8>, k: FieldKey) -> (r: Result<Option<Vec<u8>>, CodecError>)
    ensures
        r matches Ok(v) ==> line@ == field_content(key_seq(k), v.deep_view()),
        forall|v: Option<Seq<u8>>|
            line@ == field_content(key_seq(k), v) ==> (r matches Ok(w) && w.deep_view() == v),
{
    let key = key_bytes(k);
    if bytes_eq(line, &key) {
        proof {
            assert forall|v: Option<Seq<u8>>| line@ == field_content(key_seq(k), v) implies v
                is None by {
                match v {
                    Option::None => {},
                    Option::Some(x) => {
                        assert(line@.len() == key_seq(k).len() + 1 + x.len());
                    },
                }
            }
        }
        Ok(None)
    } else if line.len() > key.len() && starts_with(line, &key) {
        if line[key.len()] == 61 {
            let value = tail_from(line, key.len() + 1);
            proof {
                assert(line@ =~= key_seq(k) + seq![61u8] + value@) by {
                    assert forall|i: int| 0 <= i < line@.len() implies line@[i] == (key_seq(k)
                        + seq![61u8] + value@)[i] by {
                        if i < key@.len() {
                            assert(line@.subrange(0, key@.len() as int)[i] == line@[i]);
                        }
                    }
                }
                assert forall|v: Option<Seq<u8>>|
                    line@ == field_content(key_seq(k), v) implies (v matches Some(x) && x
                    == value@) by {
                    match v {
                        Option::None => {
                            assert(line@.len() == key_seq(k).len());
                        },
                        Option::Some(x) => {
                            assert(x =~= value@) by {
                                assert forall|j: int| 0 <= j < x.len() implies x[j] == value@[j] by {
                                    assert((key_seq(k) + seq![61u8] + x)[key_seq(k).len() + 1 + j]
                                        == x[j]);
                                    assert((key_seq(k) + seq![61u8] + value@)[key_seq(k).len() + 1
                                        + j] == value@[j]);
                                }
                            }
                        },
                    }
                }
            }
            Ok(Some(value))
        } else {
            proof {
                assert forall|v: Option<Seq<u8>>|
                    line@ == field_content(key_seq(k), v) implies false by {
                    match v {
                        Option::None => {
                            assert(line@.len() == key_seq(k).len());
                        },
                        Option::Some(x) => {
                            assert(line@[key_seq(k).len() as int] == 61u8);
                        },
                    }
                }
            }
            Err(CodecError::Malformed)
        }
    } else {
        proof {
            assert forall|v: Option<Seq<u8>>|
                line@ == field_content(key_seq(k), v) implies false by {
                match v {
                    Option::None => {},
                    Option::Some(x) => {
                        assert(line@.len() == key_seq(k).len() + 1 + x.len());
                        assert(line@.subrange(0, key_seq(k).len() as int) =~= key_seq(k)) by {
                            assert forall|j: int| 0 <= j < key_seq(k).len() implies line@.subrange(
                                0,
                                key_seq(k).len() as int,
                            )[j] == key_seq(k)[j] by {
                                assert((key_seq(k) + seq![61u8] + x)[j] == key_seq(k)[j]);
                            }
                        }
                    },
                }
            }
        }
        Err(CodecError::Malformed)
    }
}

/// Reads the step line; the word after `step=` must name one of the four
/// steps.
fn parse_step_line(line: &Vec<u8>) -> (r: Result<Step, CodecError>)
    ensures
        r matches Ok(s) ==> line@ == step_line(s),
        forall|s: Step| line@ == step_line(s) ==> (r matches Ok(t) && t == s),
{
    let c_start = step_line_bytes(Step::Start);
    let c_await = step_line_bytes(Step::AwaitDeposit);
    let c_create = step_line_bytes(Step::CreateToken);
    let c_done = step_line_bytes(Step::Done);
    proof {
        assert(step_line(Step::Start).len() == 10);
        assert(step_line(Step::AwaitDeposit).len() == 18);
        assert(step_line(Step::CreateToken).len() == 17);
        assert(step_line(Step::Done).len() == 9);
    }
    if bytes_eq(line, &c_start) {
        Ok(Step::Start)
    } else if bytes_eq(line, &c_await) {
        Ok(Step::AwaitDeposit)
    } else if bytes_eq(line, &c_create) {
        Ok(Step::CreateToken)
    } else if bytes_eq(line, &c_done) {
        Ok(Step::Done)
    } else {
        proof {
            assert forall|s: Step| line@ != step_line(s) by {
                match s {
                    Step::Start => {},
                    Step::AwaitDeposit => {},
                    Step::CreateToken => {},
                    Step::Done => {},
                }
            }
        }
        Err(CodecError::Malformed)
    }
}

/// True exactly when the fields that the state's step requires are present.
fn fields_present(st: &WorkflowState) -> (r: bool)
    ensures
        r == ({
            &&& (step_rank(st@.step) >= 1 ==> st@.pubkey is Some)
            &&& (step_rank(st@.step) >= 3 ==> {
                &&& st@.token_name is Some
                &&& st@.token_symbol is Some
                &&& st@.token_address is Some
                &&& st@.account_address is Some
            })
        }),
{
    let ok_pubkey = match st.step {
        Step::Start => true,
        _ => match &st.pubkey {
            Option::Some(_) => true,
            Option::None => false,
        },
    };
    let ok_token = match st.step {
        Step::Done => {
            let a = match &st.token_name {
                Option::Some(_) => true,
                Option::None => false,
            };
            let b = match &st.token_symbol {
                Option::Some(_) => true,
                Option::None => false,
            };
            let c = match &st.token_address {
                Option::Some(_) => true,
                Option::None => false,
            };
            let d = match &st.account_address {
                Option::Some(_) => true,
                Option::None => false,
            };
            a && b && c && d
        },
        _ => true,
    };
    ok_pubkey && ok_token
}

/// Decodes the bytes of a persisted record. Returns the unique well-formed
/// state whose record the bytes are; on any other bytes — a missing line, a
/// wrong key, an unknown step word, a field the step should not leave unset —
/// the record is malformed and an error comes back, never a default state.
pub fn parse_state(bytes: &Vec<u8>) -> (r: Result<WorkflowState, CodecError>)
    ensures
        r matches Ok(st) ==> st@.wf() && bytes@ == spec_encode(st@),
        forall|m: StateModel|
            m.wf() && bytes@ == spec_encode(m) ==> (r matches Ok(st) && st@ == m),
{
    let ls = match split_lines(bytes) {
        Option::Some(ls) => ls,
        Option::None => {
            proof {
                assert forall|m: StateModel|
                    m.wf() && bytes@ == spec_encode(m) implies false by {
                    lemma_join_last(encoded_lines(m));
                }
            }
            return Err(CodecError::Malformed);
        },
    };
    if ls.len() != 6 {
        proof {
            assert forall|m: StateModel| m.wf() && bytes@ == spec_encode(m) implies false by {
                lemma_encoded_lines_safe(m);
                lemma_join_injective(ls.deep_view(), encoded_lines(m));
            }
        }
        return Err(CodecError::Malformed);
    }
    proof {
        assert(ls.deep_view()[0] == ls@[0]@);
        assert(ls.deep_view()[1] == ls@[1]@);
        assert(ls.deep_view()[2] == ls@[2]@);
        assert(ls.deep_view()[3] == ls@[3]@);
        assert(ls.deep_view()[4] == ls@[4]@);
        assert(ls.deep_view()[5] == ls@[5]@);
    }
    let step = match parse_step_line(&ls[0]) {
        Ok(s) => s,
        Err(e) => {
            proof {
                assert forall|m: StateModel|
                    m.wf() && bytes@ == spec_encode(m) implies false by {
                    lemma_encoded_lines_safe(m);
                    lemma_join_injective(ls.deep_view(), encoded_lines(m));
                    assert(ls@[0]@ == step_line(m.step));
                }
            }
            return Err(e);
        },
    };
    let pubkey = match parse_field_line(&ls[1], FieldKey::Pubkey) {
        Ok(v) => v,
        Err(e) => {
            proof {
                assert forall|m: StateModel|
                    m.wf() && bytes@ == spec_encode(m) implies false by {
                    lemma_encoded_lines_safe(m);
                    lemma_join_injective(ls.deep_view(), encoded_lines(m));
                    assert(ls@[1]@ == field_content(key_seq(FieldKey::Pubkey), m.pubkey));
                }
            }
            return Err(e);
        },
    };
    let token_name = match parse_field_line(&ls[2], FieldKey::TokenName) {
        Ok(v) => v,
        Err(e) => {
            proof {
                assert forall|m: StateModel|
                    m.wf() && bytes@ == spec_encode(m) implies false by {
                    lemma_encoded_lines_safe(m);
                    lemma_join_injective(ls.deep_view(), encoded_lines(m));
                    assert(ls@[2]@ == field_content(key_seq(FieldKey::TokenName), m.token_name));
                }
            }
            return Err(e);
        },
    };
    let token_symbol = match parse_field_line(&ls[3], FieldKey::TokenSymbol) {
        Ok(v) => v,
        Err(e) => {
            proof {
                assert forall|m: StateModel|
                    m.wf() && bytes@ == spec_encode(m) implies false by {
                    lemma_encoded_lines_safe(m);
                    lemma_join_injective(ls.deep_view(), encoded_lines(m));
                    assert(ls@[3]@ == field_content(
                        key_seq(FieldKey::TokenSymbol),
                        m.token_symbol,
                    ));
                }
            }
            return Err(e);
        },
    };
    let token_address = match parse_field_line(&ls[4], FieldKey::TokenAddress) {
        Ok(v) => v,
        Err(e) => {
            proof {
                assert forall|m: StateModel|
                    m.wf() && bytes@ == spec_encode(m) implies false by {
                    lemma_encoded_lines_safe(m);
                    lemma_join_injective(ls.deep_view(), encoded_lines(m));
                    assert(ls@[4]@ == field_content(
                        key_seq(FieldKey::TokenAddress),
                        m.token_address,
                    ));
                }
            }
            return Err(e);
        },
    };
    let account_address = match parse_field_line(&ls[5], FieldKey::AccountAddress) {
        Ok(v) => v,
        Err(e) => {
            proof {
                assert forall|m: StateModel|
                    m.wf() && bytes@ == spec_encode(m) implies false by {
                    lemma_encoded_lines_safe(m);
                    lemma_join_injective(ls.deep_view(), encoded_lines(m));
                    assert(ls@[5]@ == field_content(
                        key_seq(FieldKey::AccountAddress),
                        m.account_address,
                    ));
                }
            }
            return Err(e);
        },
    };
    let st = WorkflowState { step, pubkey, token_name, token_symbol, token_address, account_address };
    if !fields_present(&st) {
        proof {
            assert forall|m: StateModel| m.wf() && bytes@ == spec_encode(m) implies false by {
                lemma_encoded_lines_safe(m);
                lemma_join_injective(ls.deep_view(), encoded_lines(m));
                assert(ls@[0]@ == step_line(m.step));
                assert(ls@[1]@ == field_content(key_seq(FieldKey::Pubkey), m.pubkey));
                assert(ls@[2]@ == field_content(key_seq(FieldKey::TokenName), m.token_name));
                assert(ls@[3]@ == field_content(key_seq(FieldKey::TokenSymbol), m.token_symbol));
                assert(ls@[4]@ == field_content(key_seq(FieldKey::TokenAddress), m.token_address));
                assert(ls@[5]@ == field_content(
                    key_seq(FieldKey::AccountAddress),
                    m.account_address,
                ));
                assert(st@ == m);
            }
        }
        return Err(CodecError::Malformed);
    }
    proof {
        assert(st@.wf()) by {
            lemma_field_value_safe(key_seq(FieldKey::Pubkey), st@.pubkey);
            lemma_field_value_safe(key_seq(FieldKey::TokenName), st@.token_name);
            lemma_field_value_safe(key_seq(FieldKey::TokenSymbol), st@.token_symbol);
            lemma_field_value_safe(key_seq(FieldKey::TokenAddress), st@.token_address);
            lemma_field_value_safe(key_seq(FieldKey::AccountAddress), st@.account_address);
        }
        assert(ls.deep_view() =~= encoded_lines(st@));
        assert forall|m: StateModel|
            m.wf() && bytes@ == spec_encode(m) implies st@ == m by {
            lemma_encoded_lines_safe(m);
            lemma_join_injective(ls.deep_view(), encoded_lines(m));
            assert(ls@[0]@ == step_line(m.step));
            assert(ls@[1]@ == field_content(key_seq(FieldKey::Pubkey), m.pubkey));
            assert(ls@[2]@ == field_content(key_seq(FieldKey::TokenName), m.token_name));
            assert(ls@[3]@ == field_content(key_seq(FieldKey::TokenSymbol), m.token_symbol));
            assert(ls@[4]@ == field_content(key_seq(FieldKey::TokenAddress), m.token_address));
            assert(ls@[5]@ == field_content(key_seq(FieldKey::AccountAddress), m.account_address));
        }
    }
    Ok(st)
}

} // verus!
