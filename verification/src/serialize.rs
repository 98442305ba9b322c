//! Plain-text tensor checkpoints.
//!
//! A tensor is written as a header line `rank,dim0,dim1,...` followed by one
//! line per stored value. Tensors are concatenated, one after another, in
//! parameter order. The text of a value is read by a function the caller
//! supplies, so the element type stays open.
use vstd::prelude::*;
use vstd::string::*;

use crate::error::{Result, RustGradError, is_invalid_argument};
use crate::tensor::{Shape, Tensor, dims_error, product, valid_dims};
use crate::text::{
    chars_of,
    char_width,
    decimal,
    digit_char,
    digits_value,
    is_digit,
    trim_end,
    trim_start,
    unsigned_digits,
    lemma_encode_concat,
    lemma_utf8_len_push,
    parsed_usize,
    push_decimal,
    read_usize_in,
    split_chars,
    trim_bounds,
    trimmed,
    utf8_len,
};

verus! {

/// The position of the first line break at or after `from`.
pub open spec fn next_newline(cs: Seq<char>, from: int) -> Option<int>
    decreases cs.len() - from,
{
    if from < 0 || from >= cs.len() {
        None
    } else if cs[from] == '\n' {
        Some(from)
    } else {
        next_newline(cs, from + 1)
    }
}

/// The comma-separated fields of a line, as `str::split(',')` gives them:
/// one more field than there are commas.
pub open spec fn split_commas(s: Seq<char>) -> Seq<Seq<char>>
    decreases s.len(),
{
    if s.len() == 0 {
        seq![Seq::<char>::empty()]
    } else {
        let fields = split_commas(s.drop_last());
        if s.last() == ',' {
            fields.push(Seq::<char>::empty())
        } else {
            fields.update(fields.len() - 1, fields.last().push(s.last()))
        }
    }
}

/// The input holds a complete header line.
pub open spec fn has_header(cs: Seq<char>) -> bool {
    next_newline(cs, 0) is Some
}

/// The fields of the header that name dimensions: every field after the
/// first, which holds the rank and is not read.
pub open spec fn dimension_fields(cs: Seq<char>) -> Seq<Seq<char>> {
    split_commas(cs.take(next_newline(cs, 0)->Some_0)).drop_first()
}

/// A dimension field reads as an integer once surrounding whitespace is removed.
pub open spec fn field_ok(field: Seq<char>) -> bool {
    parsed_usize(trimmed(field)) is Some
}

/// The integer a dimension field names.
pub open spec fn field_value(field: Seq<char>) -> usize {
    parsed_usize(trimmed(field))->Some_0 as usize
}

/// Every field names an integer.
pub open spec fn fields_ok(fields: Seq<Seq<char>>) -> bool {
    forall|j: int| 0 <= j < fields.len() ==> field_ok(#[trigger] fields[j])
}

/// Field `j` is the first that does not name an integer.
pub open spec fn first_bad_field(fields: Seq<Seq<char>>, j: int) -> bool {
    &&& 0 <= j < fields.len()
    &&& !field_ok(fields[j])
    &&& forall|k: int| 0 <= k < j ==> field_ok(#[trigger] fields[k])
}

/// The dimensions the header lists.
pub open spec fn listed_dims(cs: Seq<char>) -> Seq<usize> {
    Seq::new(dimension_fields(cs).len(), |j: int| field_value(dimension_fields(cs)[j]))
}

/// The header reads as a usable list of dimensions.
pub open spec fn header_usable(cs: Seq<char>) -> bool {
    has_header(cs) && fields_ok(dimension_fields(cs)) && valid_dims(listed_dims(cs))
}

/// The number of values the header announces fits in a `usize`; counting
/// them overflows otherwise.
pub open spec fn header_fits(cs: Seq<char>) -> bool {
    has_header(cs) && fields_ok(dimension_fields(cs)) ==> product(listed_dims(cs)) <= usize::MAX
}

/// Reading up to `n` value lines from position `start`: the lines found, in
/// order, and the position just after the last line break read.
pub open spec fn value_lines(cs: Seq<char>, start: int, n: nat) -> (Seq<Seq<char>>, int)
    decreases n,
{
    if n == 0 {
        (Seq::<Seq<char>>::empty(), start)
    } else {
        let prev = value_lines(cs, start, (n - 1) as nat);
        if prev.0.len() < n - 1 {
            prev
        } else {
            match next_newline(cs, prev.1) {
                None => prev,
                Some(e) => (prev.0.push(cs.subrange(prev.1, e)), e + 1),
            }
        }
    }
}

/// The value lines of a tensor whose header is usable.
pub open spec fn tensor_lines(cs: Seq<char>) -> (Seq<Seq<char>>, int) {
    value_lines(cs, next_newline(cs, 0)->Some_0 + 1, product(listed_dims(cs)))
}

/// Some call of `read` on a string equal to `line` gave `v`.
pub open spec fn read_gives<T, F: Fn(&str) -> Option<T>>(read: F, line: Seq<char>, v: Option<T>) -> bool {
    exists|s: &str| #[trigger] call_ensures(read, (s,), v) && s@ == line
}

/// Every call of `read` on a string equal to `line` gives a value.
pub open spec fn read_total<T, F: Fn(&str) -> Option<T>>(read: F, line: Seq<char>) -> bool {
    forall|s: &str, v: Option<T>| #[trigger] call_ensures(read, (s,), v) && s@ == line ==> v is Some
}

/// Every call of `read` on a string equal to `line` refuses it.
pub open spec fn read_refuses<T, F: Fn(&str) -> Option<T>>(read: F, line: Seq<char>) -> bool {
    forall|s: &str, v: Option<T>| #[trigger] call_ensures(read, (s,), v) && s@ == line ==> v is None
}

/// Some call of `read` on a string equal to `line` gave a value.
pub open spec fn read_some<T, F: Fn(&str) -> Option<T>>(read: F, line: Seq<char>) -> bool {
    exists|s: &str, v: T| #[trigger] call_ensures(read, (s,), Some(v)) && s@ == line
}

/// Line `j` is the first whose value was refused, and `e` reports it.
pub open spec fn refused_at<T, F: Fn(&str) -> Option<T>>(
    read: F,
    lines: Seq<Seq<char>>,
    j: int,
    e: RustGradError,
) -> bool {
    &&& 0 <= j < lines.len()
    &&& read_gives(read, lines[j], None)
    &&& forall|k: int| 0 <= k < j ==> #[trigger] read_some(read, lines[k])
    &&& is_invalid_argument(e, "checkpoint"@, "invalid float '"@ + lines[j] + "'"@)
}

/// The error for a checkpoint that ends before all values were read.
pub open spec fn is_missing_values(e: RustGradError, expected: nat, found: nat) -> bool {
    is_invalid_argument(
        e,
        "checkpoint"@,
        "expected "@ + decimal(expected) + " values, found "@ + decimal(found),
    )
}

fn checkpoint_error(reason: String) -> (e: RustGradError)
    ensures
        is_invalid_argument(e, "checkpoint"@, reason@),
{
    RustGradError::InvalidArgument { name: "checkpoint", reason }
}

/// Finds the next line break at or after `from`, and the number of bytes
/// between `from` and it.
fn find_newline(cs: &Vec<char>, from: usize) -> (r: Option<(usize, usize)>)
    requires
        from <= cs@.len(),
        utf8_len(cs@) <= usize::MAX,
    ensures
        match r {
            Some((e, bytes)) => next_newline(cs@, from as int) == Some(e as int) && bytes == utf8_len(
                cs@.subrange(from as int, e as int),
            ),
            None => next_newline(cs@, from as int) is None,
        },
{
    let mut j = from;
    let mut bytes: usize = 0;
    while j < cs.len()
        invariant
            from <= j <= cs@.len(),
            next_newline(cs@, from as int) == next_newline(cs@, j as int),
            bytes == utf8_len(cs@.subrange(from as int, j as int)),
            utf8_len(cs@) <= usize::MAX,
        decreases cs@.len() - j,
    {
        if cs[j] == '\n' {
            return Some((j, bytes));
        }
        let w = char_width(cs[j]);
        proof {
            assert(cs@.subrange(from as int, j + 1) =~= cs@.subrange(from as int, j as int).push(
                cs@[j as int],
            ));
            lemma_utf8_len_push(cs@.subrange(from as int, j as int), cs@[j as int]);
            lemma_utf8_len_subrange(cs@, from as int, j + 1);
        }
        bytes = bytes + w;
        j += 1;
    }
    None
}

/// A part of a text takes no more bytes than the whole.
proof fn lemma_utf8_len_subrange(cs: Seq<char>, from: int, to: int)
    requires
        0 <= from <= to <= cs.len(),
    ensures
        utf8_len(cs.subrange(from, to)) <= utf8_len(cs),
{
    assert(cs =~= cs.take(from) + (cs.subrange(from, to) + cs.skip(to)));
    lemma_encode_concat(cs.take(from), cs.subrange(from, to) + cs.skip(to));
    lemma_encode_concat(cs.subrange(from, to), cs.skip(to));
}

/// The bytes of a prefix are those of a shorter prefix and of the text between.
proof fn lemma_utf8_len_split(cs: Seq<char>, from: int, to: int)
    requires
        0 <= from <= to <= cs.len(),
    ensures
        utf8_len(cs.take(to)) == utf8_len(cs.take(from)) + utf8_len(cs.subrange(from, to)),
{
    assert(cs.take(to) =~= cs.take(from) + cs.subrange(from, to));
    lemma_encode_concat(cs.take(from), cs.subrange(from, to));
}

/// The prefix ending at a line break is one byte longer than the prefix
/// ending just before it.
proof fn lemma_utf8_len_newline(cs: Seq<char>, e: int)
    requires
        0 <= e < cs.len(),
        cs[e] == '\n',
    ensures
        utf8_len(cs.take(e + 1)) == utf8_len(cs.take(e)) + 1,
{
    assert(cs.take(e + 1) =~= cs.take(e).push(cs[e]));
    lemma_utf8_len_push(cs.take(e), cs[e]);
}

/// Reads one dimension field, `cs[from..to]`.
fn read_dimension(input: &str, cs: &Vec<char>, from: usize, to: usize) -> (r: Result<usize>)
    requires
        input@ == cs@,
        from <= to <= cs@.len(),
    ensures
        match r {
            Ok(v) => field_ok(cs@.subrange(from as int, to as int)) && v == field_value(
                cs@.subrange(from as int, to as int),
            ),
            Err(e) => !field_ok(cs@.subrange(from as int, to as int)) && is_invalid_argument(
                e,
                "checkpoint"@,
                "invalid dimension '"@ + cs@.subrange(from as int, to as int) + "'"@,
            ),
        },
{
    let (a, b) = trim_bounds(cs, from, to);
    match read_usize_in(cs, a, b) {
        Some(v) => Ok(v),
        None => {
            let mut reason = String::new();
            reason.append("invalid dimension '");
            reason.append(input.substring_char(from, to));
            reason.append("'");
            Err(checkpoint_error(reason))
        },
    }
}

/// What the position of the next line break says.
proof fn lemma_next_newline(cs: Seq<char>, from: int)
    requires
        0 <= from,
    ensures
        next_newline(cs, from) matches Some(e) ==> from <= e < cs.len() && cs[e] == '\n' && forall|
            k: int,
        | from <= k < e ==> cs[k] != '\n',
        next_newline(cs, from) is None ==> forall|k: int| from <= k < cs.len() ==> cs[k] != '\n',
    decreases cs.len() - from,
{
    if from < cs.len() && cs[from] != '\n' {
        lemma_next_newline(cs, from + 1);
    }
}

/// A line always has at least one field.
proof fn lemma_split_len(s: Seq<char>)
    ensures
        split_commas(s).len() >= 1,
    decreases s.len(),
{
    if s.len() > 0 {
        lemma_split_len(s.drop_last());
    }
}

/// Reading one more character keeps every completed field.
proof fn lemma_split_extend(s: Seq<char>, j: int)
    requires
        0 <= j < s.len(),
    ensures
        split_commas(s.take(j)).len() <= split_commas(s.take(j + 1)).len(),
        forall|k: int|
            0 <= k < split_commas(s.take(j)).len() - 1 ==> #[trigger] split_commas(s.take(j + 1))[k]
                == split_commas(s.take(j))[k],
{
    assert(s.take(j + 1).drop_last() =~= s.take(j));
    assert(s.take(j + 1).last() == s[j]);
    lemma_split_len(s.take(j));
}

/// The fields completed in a prefix are fields of the whole line.
proof fn lemma_split_prefix(s: Seq<char>, i: int, j: int)
    requires
        0 <= i <= j <= s.len(),
    ensures
        split_commas(s.take(i)).len() <= split_commas(s.take(j)).len(),
        forall|k: int|
            0 <= k < split_commas(s.take(i)).len() - 1 ==> #[trigger] split_commas(s.take(j))[k]
                == split_commas(s.take(i))[k],
    decreases j - i,
{
    if i < j {
        lemma_split_prefix(s, i, j - 1);
        lemma_split_extend(s, j - 1);
        lemma_split_len(s.take(i));
        assert forall|k: int| 0 <= k < split_commas(s.take(i)).len() - 1 implies #[trigger] split_commas(
            s.take(j),
        )[k] == split_commas(s.take(i))[k] by {
            assert(split_commas(s.take(j - 1))[k] == split_commas(s.take(i))[k]);
        }
    }
}

/// Dimension `k` was read from field `k + 1` of the header.
spec fn dim_read(dims: Seq<usize>, fields: Seq<Seq<char>>, k: int) -> bool {
    field_ok(fields[k + 1]) && dims[k] == field_value(fields[k + 1])
}

/// Every dimension was read from the header field after it.
spec fn dims_read(dims: Seq<usize>, fields: Seq<Seq<char>>) -> bool {
    forall|k: int| 0 <= k < dims.len() ==> #[trigger] dim_read(dims, fields, k)
}

/// Reads the header line: the position of its line break and the
/// dimensions it lists, which are not yet checked as a shape.
fn read_header(input: &str, cs: &Vec<char>) -> (r: Result<(usize, usize, Vec<usize>)>)
    requires
        input@ == cs@,
        utf8_len(cs@) <= usize::MAX,
    ensures
        r is Ok <==> has_header(cs@) && fields_ok(dimension_fields(cs@)),
        r matches Ok((h, bytes, dims)) ==> next_newline(cs@, 0) == Some(h as int) && bytes
            == utf8_len(cs@.take(h as int)) && dims@ == listed_dims(cs@),
        !has_header(cs@) ==> r is Err && is_invalid_argument(
            r->Err_0,
            "checkpoint"@,
            "missing tensor header line"@,
        ),
        has_header(cs@) && r is Err ==> exists|j: int|
            first_bad_field(dimension_fields(cs@), j) && is_invalid_argument(
                r->Err_0,
                "checkpoint"@,
                "invalid dimension '"@ + #[trigger] dimension_fields(cs@)[j] + "'"@,
            ),
{
    let (h, header_bytes) = match find_newline(cs, 0) {
        Some(found) => found,
        None => {
            let mut reason = String::new();
            reason.append("missing tensor header line");
            return Err(checkpoint_error(reason));
        },
    };
    let ghost line = cs@.take(h as int);
    let ghost all = split_commas(line);
    proof {
        lemma_split_len(line);
        lemma_next_newline(cs@, 0);
        assert(line.take(0) =~= Seq::<char>::empty());
        assert(cs@.subrange(0, 0) =~= Seq::<char>::empty());
        assert(Seq::<Seq<char>>::empty().push(Seq::<char>::empty()) =~= seq![Seq::<char>::empty()]);
    }
    let mut dims: Vec<usize> = Vec::new();
    let mut start: usize = 0;
    let mut count: usize = 0;
    let ghost mut done: Seq<Seq<char>> = Seq::empty();
    let mut j: usize = 0;
    while j < h
        invariant
            input@ == cs@,
            h < cs@.len(),
            next_newline(cs@, 0) == Some(h as int),
            line == cs@.take(h as int),
            all == split_commas(line),
            start <= j <= h,
            split_commas(line.take(j as int)) == done.push(cs@.subrange(start as int, j as int)),
            count == done.len(),
            count <= j,
            count == 0 ==> dims@.len() == 0,
            count > 0 ==> dims@.len() == count - 1,
            dims_read(dims@, done),
            forall|k: int| 0 <= k < done.len() ==> #[trigger] all[k] == done[k],
            count < all.len(),
        decreases h - j,
    {
        let ghost before = done;
        if cs[j] == ',' {
            proof {
                assert(line.take(j + 1).drop_last() =~= line.take(j as int));
                assert(line.take(j + 1).last() == cs@[j as int]);
                assert(split_commas(line.take(j + 1)) == before.push(
                    cs@.subrange(start as int, j as int),
                ).push(Seq::<char>::empty()));
                lemma_split_prefix(line, j + 1, h as int);
                assert(line.take(h as int) =~= line);
                assert(all[count as int] == cs@.subrange(start as int, j as int));
            }
            let ghost dims_before = dims@;
            if count >= 1 {
                match read_dimension(input, cs, start, j) {
                    Ok(v) => {
                        dims.push(v);
                        assert(dims@[count - 1] == field_value(
                            cs@.subrange(start as int, j as int),
                        ));
                        assert(field_ok(cs@.subrange(start as int, j as int)));
                    },
                    Err(e) => {
                        proof {
                            let fields = dimension_fields(cs@);
                            assert(fields =~= all.drop_first());
                            assert(first_bad_field(fields, count - 1)) by {
                                assert forall|k: int| 0 <= k < count - 1 implies field_ok(
                                    #[trigger] fields[k],
                                ) by {
                                    assert(fields[k] == all[k + 1]);
                                    assert(all[k + 1] == done[k + 1]);
                                    assert(dim_read(dims@, done, k));
                                }
                            }
                        }
                        return Err(e);
                    },
                }
            }
            proof {
                done = before.push(cs@.subrange(start as int, j as int));
                assert(cs@.subrange(j + 1, j + 1) =~= Seq::<char>::empty());
                assert forall|k: int| 0 <= k < dims@.len() implies #[trigger] dim_read(
                    dims@,
                    done,
                    k,
                ) by {
                    assert(dim_read(dims_before, before, k) || k + 1 >= count);
                    if k + 1 < count {
                        assert(done[k + 1] == before[k + 1]);
                        assert(dims@[k] == dims_before[k]);
                    } else {
                        assert(done[k + 1] == cs@.subrange(start as int, j as int));
                    }
                }
            }
            count = count + 1;
            start = j + 1;
        } else {
            proof {
                assert(line.take(j + 1).drop_last() =~= line.take(j as int));
                assert(line.take(j + 1).last() == cs@[j as int]);
                assert(cs@.subrange(start as int, j + 1) =~= cs@.subrange(
                    start as int,
                    j as int,
                ).push(cs@[j as int]));
                assert(split_commas(line.take(j + 1)) =~= before.push(
                    cs@.subrange(start as int, j + 1),
                ));
                lemma_split_prefix(line, j + 1, h as int);
                assert(line.take(h as int) =~= line);
            }
        }
        j += 1;
    }
    proof {
        assert(line.take(h as int) =~= line);
        assert(all == done.push(cs@.subrange(start as int, h as int)));
    }
    let ghost dims_before = dims@;
    if count >= 1 {
        match read_dimension(input, cs, start, h) {
            Ok(v) => {
                dims.push(v);
                assert(dims@[count - 1] == field_value(cs@.subrange(start as int, h as int)));
            },
            Err(e) => {
                proof {
                    let fields = dimension_fields(cs@);
                    assert(fields =~= all.drop_first());
                    assert(first_bad_field(fields, count - 1)) by {
                        assert forall|k: int| 0 <= k < count - 1 implies field_ok(
                            #[trigger] fields[k],
                        ) by {
                            assert(fields[k] == all[k + 1]);
                            assert(dim_read(dims@, done, k));
                        }
                    }
                }
                return Err(e);
            },
        }
    }
    proof {
        let fields = dimension_fields(cs@);
        assert(fields =~= all.drop_first());
        assert forall|k: int| 0 <= k < dims@.len() implies #[trigger] dim_read(dims@, all, k) by {
            if k + 1 < count {
                assert(dim_read(dims_before, done, k));
                assert(all[k + 1] == done[k + 1]);
                assert(dims@[k] == dims_before[k]);
            } else {
                assert(all[k + 1] == cs@.subrange(start as int, h as int));
            }
        }
        assert(fields.len() == dims@.len());
        assert forall|k: int| 0 <= k < fields.len() implies field_ok(#[trigger] fields[k])
            && dims@[k] == field_value(fields[k]) by {
            assert(fields[k] == all[k + 1]);
            assert(dim_read(dims@, all, k));
        }
        assert(dims@ =~= listed_dims(cs@));
        assert(cs@.take(h as int) =~= cs@.subrange(0, h as int));
    }
    Ok((h, header_bytes, dims))
}

/// Reading more lines keeps the lines already read.
proof fn lemma_lines_prefix(cs: Seq<char>, start: int, m: nat, n: nat)
    requires
        m <= n,
    ensures
        value_lines(cs, start, m).0.len() <= value_lines(cs, start, n).0.len(),
        value_lines(cs, start, n).0.len() <= n,
        forall|k: int|
            0 <= k < value_lines(cs, start, m).0.len() ==> #[trigger] value_lines(cs, start, n).0[k]
                == value_lines(cs, start, m).0[k],
    decreases n,
{
    if n > 0 {
        if m < n {
            lemma_lines_prefix(cs, start, m, (n - 1) as nat);
        } else {
            lemma_lines_prefix(cs, start, (n - 1) as nat, (n - 1) as nat);
        }
    }
}

/// Once the text runs out of line breaks, reading more lines finds nothing more.
proof fn lemma_lines_stop(cs: Seq<char>, start: int, i: nat, n: nat)
    requires
        i < n,
        value_lines(cs, start, i).0.len() == i,
        next_newline(cs, value_lines(cs, start, i).1) is None,
    ensures
        value_lines(cs, start, n) == value_lines(cs, start, i),
    decreases n,
{
    if n > i + 1 {
        lemma_lines_stop(cs, start, i, (n - 1) as nat);
    }
}

/// Reads one tensor from the start of a checkpoint text.
///
/// The header lists the dimensions, which must form a valid shape; then a
/// value is read from each following line by `read_value`, which gets the
/// line without its line break. Returns the tensor and the number of bytes
/// read, so that the next tensor can be read from the rest of the text.
pub fn read_tensor<T, F: Fn(&str) -> Option<T>>(input: &str, read_value: F) -> (r: Result<
    (Tensor<T>, usize),
>)
    requires
        forall|s: &str| #[trigger] call_requires(read_value, (s,)),
        header_fits(input@),
    ensures
        !has_header(input@) ==> r is Err && is_invalid_argument(
            r->Err_0,
            "checkpoint"@,
            "missing tensor header line"@,
        ),
        has_header(input@) ==> forall|j: int| #[trigger]
            first_bad_field(dimension_fields(input@), j) ==> r is Err && is_invalid_argument(
                r->Err_0,
                "checkpoint"@,
                "invalid dimension '"@ + dimension_fields(input@)[j] + "'"@,
            ),
        has_header(input@) && fields_ok(dimension_fields(input@)) && !valid_dims(
            listed_dims(input@),
        ) ==> r is Err && dims_error(listed_dims(input@), r->Err_0),
        r matches Ok((t, consumed)) ==> {
            &&& header_usable(input@)
            &&& tensor_lines(input@).0.len() == product(listed_dims(input@))
            &&& t.spec_dims() == listed_dims(input@)
            &&& t.well_formed()
            &&& forall|i: int|
                0 <= i < t.spec_data().len() ==> read_gives(
                    read_value,
                    tensor_lines(input@).0[i],
                    Some(#[trigger] t.spec_data()[i]),
                )
            &&& consumed == utf8_len(input@.take(tensor_lines(input@).1))
        },
        header_usable(input@) && r is Err ==> {
            ||| exists|j: int| refused_at(read_value, tensor_lines(input@).0, j, r->Err_0)
            ||| {
                &&& tensor_lines(input@).0.len() < product(listed_dims(input@))
                &&& is_missing_values(
                    r->Err_0,
                    product(listed_dims(input@)),
                    tensor_lines(input@).0.len(),
                )
                &&& forall|k: int|
                    0 <= k < tensor_lines(input@).0.len() ==> #[trigger] read_some(
                        read_value,
                        tensor_lines(input@).0[k],
                    )
            }
        },
        forall|j: int|
            #![trigger read_refuses(read_value, tensor_lines(input@).0[j])]
            header_usable(input@) && 0 <= j < tensor_lines(input@).0.len() && read_refuses(
                read_value,
                tensor_lines(input@).0[j],
            ) && (forall|k: int|
                0 <= k < j ==> read_total(read_value, #[trigger] tensor_lines(input@).0[k]))
                ==> r is Err && is_invalid_argument(
                r->Err_0,
                "checkpoint"@,
                "invalid float '"@ + tensor_lines(input@).0[j] + "'"@,
            ),
        header_usable(input@) && (forall|j: int|
            0 <= j < tensor_lines(input@).0.len() ==> read_total(
                read_value,
                #[trigger] tensor_lines(input@).0[j],
            )) ==> {
            &&& (r is Ok <==> tensor_lines(input@).0.len() == product(listed_dims(input@)))
            &&& tensor_lines(input@).0.len() < product(listed_dims(input@)) ==> is_missing_values(
                r->Err_0,
                product(listed_dims(input@)),
                tensor_lines(input@).0.len(),
            )
        },
{
    let cs = chars_of(input);
    let total = input.as_bytes().len();
    assert(utf8_len(cs@) == total);
    let (h, header_bytes, dims) = match read_header(input, &cs) {
        Ok(x) => x,
        Err(e) => {
            return Err(e);
        },
    };
    let ghost listed = dims@;
    let shape = match Shape::new(dims) {
        Ok(s) => s,
        Err(e) => {
            return Err(e);
        },
    };
    let count = shape.element_count();
    proof {
        lemma_next_newline(cs@, 0);
        lemma_utf8_len_newline(cs@, h as int);
        lemma_utf8_len_subrange(cs@, 0, h + 1);
        assert(cs@.take(h + 1) =~= cs@.subrange(0, h + 1));
    }
    let ghost start = h + 1;
    let n = cs.len();
    let mut cursor: usize = h + 1;
    let mut byte_cursor: usize = header_bytes + 1;
    let mut data: Vec<T> = Vec::new();
    let ghost mut lines: Seq<Seq<char>> = Seq::empty();
    let mut i: usize = 0;
    while i < count
        invariant
            input@ == cs@,
            utf8_len(cs@) <= usize::MAX,
            forall|s: &str| #[trigger] call_requires(read_value, (s,)),
            start == h + 1,
            header_usable(cs@),
            listed == listed_dims(cs@),
            shape@ == listed,
            count == product(listed),
            next_newline(cs@, 0) == Some(h as int),
            i <= count,
            n == cs@.len(),
            cursor <= cs@.len(),
            value_lines(cs@, start, i as nat) == (lines, cursor as int),
            lines.len() == i,
            data@.len() == i,
            forall|k: int|
                0 <= k < i ==> read_gives(read_value, lines[k], Some(#[trigger] data@[k])),
            byte_cursor == utf8_len(cs@.take(cursor as int)),
        decreases count - i,
    {
        let (e, line_bytes) = match find_newline(&cs, cursor) {
            Some(p) => p,
            None => {
                proof {
                    lemma_lines_stop(cs@, start, i as nat, count as nat);
                    assert forall|k: int| 0 <= k < i implies #[trigger] read_some(
                        read_value,
                        lines[k],
                    ) by {
                        let s = choose|s: &str|
                            call_ensures(read_value, (s,), Some(data@[k])) && s@ == lines[k];
                        assert(call_ensures(read_value, (s,), Some(data@[k])) && s@ == lines[k]);
                    }
                    assert forall|j: int| 0 <= j < lines.len() implies !read_refuses(
                        read_value,
                        #[trigger] lines[j],
                    ) by {
                        assert(read_some(read_value, lines[j]));
                    }
                }
                let mut reason = String::new();
                reason.append("expected ");
                push_decimal(&mut reason, count);
                reason.append(" values, found ");
                push_decimal(&mut reason, i);
                return Err(checkpoint_error(reason));
            },
        };
        proof {
            lemma_next_newline(cs@, cursor as int);
            assert(cs@.skip(cursor as int).take(e - cursor) =~= cs@.subrange(
                cursor as int,
                e as int,
            ));
            assert(byte_cursor == utf8_len(input@.take(cursor as int)));
        }
        let rest = split_chars(input, Ghost(cursor as int), byte_cursor).1;
        let line = split_chars(rest, Ghost((e - cursor) as int), line_bytes).0;
        let ghost next_lines = lines.push(cs@.subrange(cursor as int, e as int));
        proof {
            assert(value_lines(cs@, start, (i + 1) as nat) == (next_lines, e + 1));
            lemma_lines_prefix(cs@, start, (i + 1) as nat, count as nat);
            assert(tensor_lines(cs@) == value_lines(cs@, start, count as nat));
        }
        match read_value(line) {
            Some(v) => {
                data.push(v);
            },
            None => {
                let mut reason = String::new();
                reason.append("invalid float '");
                reason.append(line);
                reason.append("'");
                let err = checkpoint_error(reason);
                proof {
                    let all = tensor_lines(cs@).0;
                    assert(all[i as int] == next_lines[i as int]);
                    assert(read_gives(read_value, all[i as int], None));
                    assert forall|k: int| 0 <= k < i implies #[trigger] read_some(
                        read_value,
                        all[k],
                    ) by {
                        assert(all[k] == next_lines[k]);
                        assert(read_gives(read_value, lines[k], Some(data@[k])));
                        let s = choose|s: &str|
                            call_ensures(read_value, (s,), Some(data@[k])) && s@ == lines[k];
                        assert(call_ensures(read_value, (s,), Some(data@[k])) && s@ == all[k]);
                    }
                    assert(line@ == all[i as int]);
                    assert(reason@ == "invalid float '"@ + all[i as int] + "'"@);
                    assert(is_invalid_argument(err, "checkpoint"@, "invalid float '"@ + all[i as int] + "'"@));
                    assert(refused_at(read_value, all, i as int, err));
                    assert(!read_total(read_value, all[i as int]));
                    assert forall|j: int|
                        #![trigger read_refuses(read_value, all[j])]
                        0 <= j < all.len() && read_refuses(read_value, all[j]) && (forall|k: int|
                            0 <= k < j ==> read_total(read_value, #[trigger] all[k])) implies j
                        == i by {
                        if j < i {
                            assert(all[j] == lines[j]);
                            let s = choose|s: &str|
                                call_ensures(read_value, (s,), Some(data@[j])) && s@ == lines[j];
                            assert(call_ensures(read_value, (s,), Some(data@[j])) && s@ == all[j]);
                        } else if j > i {
                            assert(read_total(read_value, all[i as int]));
                        }
                    }
                }
                return Err(err);
            },
        }
        proof {
            lemma_utf8_len_split(cs@, cursor as int, e as int);
            lemma_utf8_len_newline(cs@, e as int);
            lemma_utf8_len_subrange(cs@, 0, e + 1);
            assert(cs@.take(e + 1) =~= cs@.subrange(0, e + 1));
            lines = next_lines;
        }
        byte_cursor = byte_cursor + line_bytes + 1;
        cursor = e + 1;
        i += 1;
    }
    proof {
        assert forall|j: int| 0 <= j < lines.len() implies !read_refuses(
            read_value,
            #[trigger] lines[j],
        ) by {
            let s = choose|s: &str|
                call_ensures(read_value, (s,), Some(data@[j])) && s@ == lines[j];
            assert(call_ensures(read_value, (s,), Some(data@[j])) && s@ == lines[j]);
        }
        assert(tensor_lines(cs@) == value_lines(cs@, start, count as nat));
    }
    let tensor = match Tensor::new(shape, data) {
        Ok(t) => t,
        Err(e) => {
            return Err(e);
        },
    };
    Ok((tensor, byte_cursor))
}

/// The dimensions of a header, each after a comma.
pub open spec fn dims_text(dims: Seq<usize>) -> Seq<char>
    decreases dims.len(),
{
    if dims.len() == 0 {
        Seq::<char>::empty()
    } else {
        dims_text(dims.drop_last()) + ","@ + decimal(dims.last() as nat)
    }
}

/// The header line of a tensor: its rank, then each dimension, separated by
/// commas, and a line break.
pub open spec fn header_text(dims: Seq<usize>) -> Seq<char> {
    decimal(dims.len()) + dims_text(dims) + "\n"@
}

/// Value texts, each on a line of its own.
pub open spec fn lines_text(texts: Seq<Seq<char>>) -> Seq<char>
    decreases texts.len(),
{
    if texts.len() == 0 {
        Seq::<char>::empty()
    } else {
        lines_text(texts.drop_last()) + texts.last() + "\n"@
    }
}

/// Some call of `write` on `value` gave `text`.
pub open spec fn writes<T, F: Fn(&T) -> String>(write: F, value: T, text: Seq<char>) -> bool {
    exists|s: String| #[trigger] call_ensures(write, (&value,), s) && s@ == text
}

/// The text of a tensor: its header line, then the given value texts, one
/// per line.
pub open spec fn tensor_text(dims: Seq<usize>, texts: Seq<Seq<char>>) -> Seq<char> {
    header_text(dims) + lines_text(texts)
}

/// Appends the header line of a tensor with the given dimensions.
pub fn write_header(dims: &[usize], output: &mut String)
    ensures
        final(output)@ == old(output)@ + header_text(dims@),
{
    let ghost start = output@;
    push_decimal(output, dims.len());
    let n = dims.len();
    let mut i: usize = 0;
    while i < n
        invariant
            n == dims@.len(),
            i <= n,
            output@ == start + decimal(n as nat) + dims_text(dims@.take(i as int)),
        decreases n - i,
    {
        proof {
            assert(dims@.take(i + 1).drop_last() =~= dims@.take(i as int));
            assert(dims@.take(i + 1).last() == dims@[i as int]);
        }
        output.append(",");
        push_decimal(output, dims[i]);
        proof {
            assert(output@ =~= start + decimal(n as nat) + dims_text(dims@.take(i + 1)));
        }
        i += 1;
    }
    assert(dims@.take(n as int) =~= dims@);
    output.append("\n");
    assert(output@ =~= start + header_text(dims@));
}

/// Appends a tensor: its header line, then one line per stored value, in
/// row-major order, holding the text `write_value` makes of it.
pub fn write_tensor<T, F: Fn(&T) -> String>(tensor: &Tensor<T>, output: &mut String, write_value: F)
    requires
        forall|v: &T| #[trigger] call_requires(write_value, (v,)),
    ensures
        exists|texts: Seq<Seq<char>>|
            {
                &&& texts.len() == tensor.spec_data().len()
                &&& forall|i: int|
                    0 <= i < texts.len() ==> writes(
                        write_value,
                        tensor.spec_data()[i],
                        #[trigger] texts[i],
                    )
                &&& final(output)@ == old(output)@ + tensor_text(tensor.spec_dims(), texts)
            },
{
    let ghost start = output@;
    write_header(tensor.dims(), output);
    let data = tensor.data();
    let n = data.len();
    let ghost mut texts: Seq<Seq<char>> = Seq::empty();
    let mut i: usize = 0;
    while i < n
        invariant
            forall|v: &T| #[trigger] call_requires(write_value, (v,)),
            n == data@.len(),
            data@ == tensor.spec_data(),
            i <= n,
            texts.len() == i,
            forall|k: int| 0 <= k < i ==> writes(write_value, data@[k], #[trigger] texts[k]),
            output@ == start + tensor_text(tensor.spec_dims(), texts),
        decreases n - i,
    {
        let text = write_value(&data[i]);
        output.append(text.as_str());
        output.append("\n");
        proof {
            let before = texts;
            texts = texts.push(text@);
            assert(texts.drop_last() =~= before);
            assert(writes(write_value, data@[i as int], texts[i as int]));
            assert forall|k: int| 0 <= k < texts.len() implies writes(
                write_value,
                data@[k],
                #[trigger] texts[k],
            ) by {
                if k < i {
                    assert(texts[k] == before[k]);
                }
            }
            assert(output@ =~= start + tensor_text(tensor.spec_dims(), texts));
        }
        i += 1;
    }
    proof {
        assert(forall|k: int| 0 <= k < texts.len() ==> writes(write_value, tensor.spec_data()[k], #[trigger] texts[k]));
    }
}

/// Reads the dimensions a checkpoint's header lists, without checking them
/// as a shape; the caller can then see whether counting its values overflows.
pub fn header_dims(input: &str) -> (r: Result<Vec<usize>>)
    ensures
        r is Ok <==> has_header(input@) && fields_ok(dimension_fields(input@)),
        r matches Ok(dims) ==> dims@ == listed_dims(input@),
        !has_header(input@) ==> r is Err && is_invalid_argument(
            r->Err_0,
            "checkpoint"@,
            "missing tensor header line"@,
        ),
        has_header(input@) && r is Err ==> exists|j: int|
            first_bad_field(dimension_fields(input@), j) && is_invalid_argument(
                r->Err_0,
                "checkpoint"@,
                "invalid dimension '"@ + #[trigger] dimension_fields(input@)[j] + "'"@,
            ),
{
    let cs = chars_of(input);
    let total = input.as_bytes().len();
    assert(utf8_len(cs@) == total);
    match read_header(input, &cs) {
        Ok((_, _, dims)) => Ok(dims),
        Err(e) => Err(e),
    }
}

/// Every character of a decimal rendering is a digit.
proof fn lemma_decimal_digits(n: nat)
    ensures
        decimal(n).len() >= 1,
        forall|k: int| 0 <= k < decimal(n).len() ==> is_digit(#[trigger] decimal(n)[k]),
    decreases n,
{
    if n >= 10 {
        lemma_decimal_digits(n / 10);
    }
}

/// The value of a digit character.
proof fn lemma_digit_char_value(d: nat)
    requires
        d < 10,
    ensures
        (digit_char(d) as u32) - ('0' as u32) == d,
{
}

/// A decimal rendering reads back as its number.
proof fn lemma_decimal_value(n: nat)
    ensures
        digits_value(decimal(n)) == n,
    decreases n,
{
    let d = decimal(n);
    if n >= 10 {
        lemma_decimal_value(n / 10);
        assert(d.drop_last() =~= decimal(n / 10));
        lemma_digit_char_value(n % 10);
        assert(d.last() == digit_char(n % 10));
        assert(digits_value(d) == digits_value(d.drop_last()) * 10 + ((d.last() as u32) - (
        '0' as u32)) as nat);
        assert(n == (n / 10) * 10 + n % 10);
    } else {
        assert(d.drop_last() =~= Seq::<char>::empty());
        assert(digits_value(Seq::<char>::empty()) == 0);
        lemma_digit_char_value(n);
        assert(d.last() == digit_char(n));
        assert(digits_value(d) == digits_value(d.drop_last()) * 10 + ((d.last() as u32) - (
        '0' as u32)) as nat);
    }
}

/// A dimension written in decimal is a field that reads back as it.
proof fn lemma_decimal_field(d: usize)
    ensures
        field_ok(decimal(d as nat)),
        field_value(decimal(d as nat)) == d,
{
    let s = decimal(d as nat);
    lemma_decimal_digits(d as nat);
    lemma_decimal_value(d as nat);
    assert(is_digit(s[0]));
    assert(is_digit(s.last()));
    assert(trim_start(s) == s);
    assert(trim_end(s) == s);
    assert(unsigned_digits(s) == s);
}

/// A line without commas is one field.
proof fn lemma_split_no_comma(t: Seq<char>)
    requires
        forall|k: int| 0 <= k < t.len() ==> t[k] != ',',
    ensures
        split_commas(t) == seq![t],
    decreases t.len(),
{
    if t.len() > 0 {
        lemma_split_no_comma(t.drop_last());
        assert(t.drop_last().push(t.last()) =~= t);
        assert(seq![t.drop_last()].update(0, t) =~= seq![t]);
    } else {
        assert(t =~= Seq::<char>::empty());
    }
}

/// A comma followed by comma-free text adds that text as a last field.
proof fn lemma_split_append(s: Seq<char>, t: Seq<char>)
    requires
        forall|k: int| 0 <= k < t.len() ==> t[k] != ',',
    ensures
        split_commas(s + seq![','] + t) == split_commas(s).push(t),
    decreases t.len(),
{
    let u = s + seq![','] + t;
    if t.len() == 0 {
        assert(u.drop_last() =~= s);
        assert(u.last() == ',');
        assert(t =~= Seq::<char>::empty());
    } else {
        lemma_split_append(s, t.drop_last());
        assert(u.drop_last() =~= s + seq![','] + t.drop_last());
        assert(u.last() == t.last());
        lemma_split_len(s);
        assert(t.drop_last().push(t.last()) =~= t);
        assert(split_commas(s).push(t.drop_last()).update(
            split_commas(s).len() as int,
            t.drop_last().push(t.last()),
        ) =~= split_commas(s).push(t));
    }
}

/// The fields of a header line: the rank, then one field per dimension.
proof fn lemma_split_dims(prefix: Seq<char>, dims: Seq<usize>)
    requires
        forall|k: int| 0 <= k < prefix.len() ==> prefix[k] != ',',
    ensures
        split_commas(prefix + dims_text(dims)) == seq![prefix] + Seq::new(
            dims.len(),
            |j: int| decimal(dims[j] as nat),
        ),
    decreases dims.len(),
{
    reveal_strlit(",");
    if dims.len() == 0 {
        assert(prefix + dims_text(dims) =~= prefix);
        lemma_split_no_comma(prefix);
        assert(seq![prefix] + Seq::new(0, |j: int| decimal(dims[j] as nat)) =~= seq![prefix]);
    } else {
        let init = dims.drop_last();
        let last = decimal(dims.last() as nat);
        lemma_split_dims(prefix, init);
        lemma_decimal_digits(dims.last() as nat);
        assert(","@ =~= seq![',']);
        assert(prefix + dims_text(dims) =~= (prefix + dims_text(init)) + seq![','] + last);
        lemma_split_append(prefix + dims_text(init), last);
        assert((seq![prefix] + Seq::new(init.len(), |j: int| decimal(init[j] as nat))).push(last)
            =~= seq![prefix] + Seq::new(dims.len(), |j: int| decimal(dims[j] as nat)));
    }
}

/// The characters of the dimensions text are digits and commas.
proof fn lemma_dims_text_chars(dims: Seq<usize>)
    ensures
        forall|k: int|
            0 <= k < dims_text(dims).len() ==> #[trigger] dims_text(dims)[k] == ',' || is_digit(
                dims_text(dims)[k],
            ),
    decreases dims.len(),
{
    reveal_strlit(",");
    if dims.len() > 0 {
        lemma_dims_text_chars(dims.drop_last());
        lemma_decimal_digits(dims.last() as nat);
        let a = dims_text(dims.drop_last());
        let b = decimal(dims.last() as nat);
        assert(dims_text(dims) == a + ","@ + b);
        assert forall|k: int| 0 <= k < dims_text(dims).len() implies #[trigger] dims_text(dims)[k]
            == ',' || is_digit(dims_text(dims)[k]) by {
            if k < a.len() {
                assert(dims_text(dims)[k] == a[k]);
            } else if k == a.len() {
                assert(dims_text(dims)[k] == ',');
            } else {
                assert(dims_text(dims)[k] == b[k - a.len() - 1]);
            }
        }
    }
}

/// The first line break is where the scan finds it.
proof fn lemma_newline_at(cs: Seq<char>, from: int, e: int)
    requires
        0 <= from <= e < cs.len(),
        cs[e] == '\n',
        forall|k: int| from <= k < e ==> cs[k] != '\n',
    ensures
        next_newline(cs, from) == Some(e),
    decreases e - from,
{
    if from < e {
        lemma_newline_at(cs, from + 1, e);
    }
}

/// The lines of a concatenation of value lists are the concatenated lines.
proof fn lemma_lines_text_concat(a: Seq<Seq<char>>, b: Seq<Seq<char>>)
    ensures
        lines_text(a + b) == lines_text(a) + lines_text(b),
    decreases b.len(),
{
    if b.len() == 0 {
        assert(a + b =~= a);
        assert(lines_text(a) + lines_text(b) =~= lines_text(a));
    } else {
        lemma_lines_text_concat(a, b.drop_last());
        assert((a + b).drop_last() =~= a + b.drop_last());
        assert((a + b).last() == b.last());
        assert(lines_text(a + b) =~= lines_text(a) + lines_text(b));
    }
}

/// Reading value lines from text written by `lines_text` gives back the
/// texts, one line break after another.
proof fn lemma_value_lines_text(cs: Seq<char>, start: int, texts: Seq<Seq<char>>, i: nat)
    requires
        0 <= start,
        start + lines_text(texts).len() <= cs.len(),
        cs.subrange(start, start + lines_text(texts).len()) == lines_text(texts),
        forall|j: int, k: int| 0 <= j < texts.len() && 0 <= k < texts[j].len() ==> #[trigger] texts[j][k] != '\n',
        i <= texts.len(),
    ensures
        value_lines(cs, start, i) == (texts.take(i as int), start + lines_text(
            texts.take(i as int),
        ).len()),
    decreases i,
{
    reveal_strlit("\n");
    if i == 0 {
        assert(texts.take(0) =~= Seq::<Seq<char>>::empty());
    } else {
        let m = (i - 1) as nat;
        lemma_value_lines_text(cs, start, texts, m);
        let before = texts.take(m as int);
        let p = start + lines_text(before).len();
        let t = texts[m as int];
        assert(texts.take(i as int).drop_last() =~= before);
        assert(texts.take(i as int).last() == t);
        let upto = lines_text(texts.take(i as int));
        assert(upto == lines_text(before) + t + "\n"@);
        assert(texts =~= texts.take(i as int) + texts.skip(i as int));
        lemma_lines_text_concat(texts.take(i as int), texts.skip(i as int));
        assert forall|k: int| 0 <= k < upto.len() implies cs[start + k] == #[trigger] upto[k] by {
            assert(lines_text(texts)[k] == upto[k]);
            assert(cs.subrange(start, start + lines_text(texts).len())[k] == cs[start + k]);
        }
        assert forall|k: int| p <= k < p + t.len() implies cs[k] != '\n' by {
            assert(upto[k - start] == t[k - p]);
            assert(t[k - p] != '\n');
        }
        assert(upto[p + t.len() - start] == '\n');
        lemma_newline_at(cs, p, p + t.len());
        assert(cs.subrange(p, p + t.len()) =~= t) by {
            assert forall|k: int| 0 <= k < t.len() implies cs.subrange(p, p + t.len())[k] == t[k] by {
                assert(upto[p - start + k] == t[k]);
            }
        }
        assert(before.push(t) =~= texts.take(i as int));
    }
}

/// Reading the text of a tensor finds the header it was written with and,
/// line by line, exactly the value texts written after it, whatever text
/// follows.
pub proof fn lemma_read_written_tensor(
    dims: Seq<usize>,
    texts: Seq<Seq<char>>,
    rest: Seq<char>,
)
    requires
        valid_dims(dims),
        texts.len() == product(dims),
        forall|j: int, k: int| 0 <= j < texts.len() && 0 <= k < texts[j].len() ==> #[trigger] texts[j][k] != '\n',
    ensures
        header_usable(tensor_text(dims, texts) + rest),
        listed_dims(tensor_text(dims, texts) + rest) == dims,
        tensor_lines(tensor_text(dims, texts) + rest) == (texts, tensor_text(dims, texts).len() as int),
{
    reveal_strlit("\n");
    let cs = tensor_text(dims, texts) + rest;
    let line = decimal(dims.len()) + dims_text(dims);
    let h = line.len() as int;
    lemma_decimal_digits(dims.len());
    lemma_dims_text_chars(dims);
    assert forall|k: int| 0 <= k < h implies cs[k] != '\n' by {
        assert(cs[k] == line[k]);
        if k < decimal(dims.len()).len() {
            assert(line[k] == decimal(dims.len())[k]);
        } else {
            assert(line[k] == dims_text(dims)[k - decimal(dims.len()).len()]);
        }
    }
    assert(cs[h] == '\n');
    lemma_newline_at(cs, 0, h);
    assert(cs.take(h) =~= line);
    assert forall|k: int| 0 <= k < decimal(dims.len()).len() implies decimal(dims.len())[k] != ',' by {
    }
    lemma_split_dims(decimal(dims.len()), dims);
    let fields = dimension_fields(cs);
    assert(fields =~= Seq::new(dims.len(), |j: int| decimal(dims[j] as nat)));
    assert forall|j: int| 0 <= j < fields.len() implies field_ok(#[trigger] fields[j]) && field_value(
        fields[j],
    ) == dims[j] by {
        lemma_decimal_field(dims[j]);
    }
    assert(listed_dims(cs) =~= dims);
    let start = h + 1;
    let header = header_text(dims);
    assert(header.len() == start);
    assert(cs.subrange(start, start + lines_text(texts).len()) =~= lines_text(texts));
    lemma_value_lines_text(cs, start, texts, texts.len());
    assert(texts.take(texts.len() as int) =~= texts);
}

/// `read` gives back every value from any text equal to the one `write`
/// made of it.
pub open spec fn reads_back<T, W: Fn(&T) -> String, R: Fn(&str) -> Option<T>>(write: W, read: R) -> bool {
    forall|x: T, s: String, u: &str, o: Option<T>|
        #[trigger] call_ensures(write, (&x,), s) && #[trigger] call_ensures(read, (u,), o) && u@
            == s@ ==> o == Some(x)
}

/// Reading back the text of a tensor: when `read` gives back every value
/// from the text `write` makes of it, and those texts hold no line break,
/// the header lists the tensor's dimensions, every value line reads, each
/// value read is the value written on that line, and reading stops after
/// exactly the bytes of the tensor's text, whatever follows it.
pub proof fn lemma_checkpoint_round_trip<T, W: Fn(&T) -> String, R: Fn(&str) -> Option<T>>(
    write: W,
    read: R,
    dims: Seq<usize>,
    values: Seq<T>,
    texts: Seq<Seq<char>>,
    rest: Seq<char>,
)
    requires
        valid_dims(dims),
        values.len() == product(dims),
        texts.len() == values.len(),
        forall|k: int| 0 <= k < texts.len() ==> writes(write, values[k], #[trigger] texts[k]),
        forall|j: int, k: int| 0 <= j < texts.len() && 0 <= k < texts[j].len() ==> #[trigger] texts[j][k] != '\n',
        reads_back(write, read),
    ensures
        header_usable(tensor_text(dims, texts) + rest),
        listed_dims(tensor_text(dims, texts) + rest) == dims,
        tensor_lines(tensor_text(dims, texts) + rest).0.len() == values.len(),
        utf8_len(
            (tensor_text(dims, texts) + rest).take(tensor_lines(tensor_text(dims, texts) + rest).1),
        ) == utf8_len(tensor_text(dims, texts)),
        forall|k: int|
            0 <= k < values.len() ==> read_total(
                read,
                #[trigger] tensor_lines(tensor_text(dims, texts) + rest).0[k],
            ),
        forall|k: int, v: T|
            0 <= k < values.len() && #[trigger] read_gives(
                read,
                tensor_lines(tensor_text(dims, texts) + rest).0[k],
                Some(v),
            ) ==> v == values[k],
{
    lemma_read_written_tensor(dims, texts, rest);
    let cs = tensor_text(dims, texts) + rest;
    assert(cs.take(tensor_lines(cs).1) =~= tensor_text(dims, texts));
    let lines = tensor_lines(tensor_text(dims, texts) + rest).0;
    assert(lines == texts);
    assert forall|k: int| 0 <= k < values.len() implies read_total(read, #[trigger] lines[k]) by {
        assert(writes(write, values[k], texts[k]));
        let s = choose|s: String| call_ensures(write, (&values[k],), s) && s@ == texts[k];
        assert forall|u: &str, o: Option<T>| #[trigger] call_ensures(read, (u,), o) && u@
            == lines[k] implies o is Some by {
            assert(call_ensures(write, (&values[k],), s));
        }
    }
    assert forall|k: int, v: T|
        0 <= k < values.len() && #[trigger] read_gives(read, lines[k], Some(v)) implies v
        == values[k] by {
        assert(writes(write, values[k], texts[k]));
        let s = choose|s: String| call_ensures(write, (&values[k],), s) && s@ == texts[k];
        let u = choose|u: &str| call_ensures(read, (u,), Some(v)) && u@ == lines[k];
        assert(call_ensures(write, (&values[k],), s));
        assert(call_ensures(read, (u,), Some(v)));
    }
}

} // verus!
