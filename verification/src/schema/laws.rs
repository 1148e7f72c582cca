//! What holds of every schema text: which texts are schemas, that reading
//! one is a function of the text, and that whitespace at its end changes
//! nothing.
use crate::schema::literals::{NULLABLE, SEPARATOR};
use crate::schema::{
    column_spec, columns_spec, datatype_spec, is_parse_of, is_whitespace, lemma_column_consumes,
    lemma_literals, lemma_trim_start_is_suffix, nullable_spec, schema_spec, separator_spec,
    trim_start, Column, DataType,
};
use crate::{Fault, KbtError};
use vstd::prelude::*;

verus! {

/// Whether a text consists of whitespace alone.
pub open spec fn is_blank(w: Seq<char>) -> bool {
    forall|i: int| 0 <= i < w.len() ==> is_whitespace(#[trigger] w[i])
}

/// The whitespace that a schema text holds behind the tokens of one column.
pub struct Spacing {
    /// Behind the type name.
    pub after_type: Seq<char>,
    /// Behind `Nullable`, where the column has it.
    pub after_nullable: Seq<char>,
    /// Behind the separator that follows the column, where one does.
    pub after_separator: Seq<char>,
}

impl Spacing {
    /// Whether all three stretches are whitespace.
    pub open spec fn is_blank(self) -> bool {
        &&& is_blank(self.after_type)
        &&& is_blank(self.after_nullable)
        &&& is_blank(self.after_separator)
    }
}

/// The text of one column: its type name and, where it is nullable,
/// `Nullable`, each followed by the given whitespace.
pub open spec fn column_text(column: Column, spacing: Spacing) -> Seq<char> {
    column.dtype.name() + spacing.after_type + if column.nullable {
        NULLABLE@ + spacing.after_nullable
    } else {
        Seq::<char>::empty()
    }
}

/// The text of a list of columns: the columns' texts, joined by separators
/// that are followed by the given whitespace.
pub open spec fn columns_text(columns: Seq<Column>, spacing: Seq<Spacing>) -> Seq<char>
    decreases columns.len(),
{
    if columns.len() == 0 {
        Seq::<char>::empty()
    } else if columns.len() == 1 {
        column_text(columns[0], spacing[0])
    } else {
        column_text(columns[0], spacing[0]) + seq![SEPARATOR as char] + spacing[0].after_separator
            + columns_text(columns.skip(1), spacing.skip(1))
    }
}

/// Whitespace before a text that starts with none is trimmed away, all of it
/// and nothing more.
pub proof fn lemma_trim_start_blank(w: Seq<char>, s: Seq<char>)
    requires
        is_blank(w),
        s.len() > 0 ==> !is_whitespace(s[0]),
    ensures
        trim_start(w + s) == s,
    decreases w.len(),
{
    if w.len() == 0 {
        assert(w + s =~= s);
    } else {
        assert(is_whitespace(w[0]));
        assert((w + s).skip(1) =~= w.skip(1) + s);
        lemma_trim_start_blank(w.skip(1), s);
    }
}

/// The text of a column, whatever follows it, is read as that column, as
/// long as what follows is nothing or starts with the separator.
pub proof fn lemma_column_text_read(column: Column, spacing: Spacing, tail: Seq<char>)
    requires
        spacing.is_blank(),
        tail.len() > 0 ==> tail[0] == SEPARATOR as char,
    ensures
        column_spec(column_text(column, spacing) + tail) == Ok::<_, Fault>((column, tail)),
{
    lemma_literals();
    let name = column.dtype.name();
    let word = if column.nullable {
        NULLABLE@ + spacing.after_nullable
    } else {
        Seq::<char>::empty()
    };
    let s = column_text(column, spacing) + tail;
    let after_name = spacing.after_type + (word + tail);
    assert(s =~= name + after_name);
    assert(name.is_prefix_of(s));
    assert(s[0] == name[0]);
    assert(s.skip(name.len() as int) =~= after_name);
    if column.dtype == DataType::Int32 {
        assert(s[0] != DataType::Float32.name()[0]);
    }
    if column.nullable {
        assert((word + tail)[0] == 'N');
        lemma_trim_start_blank(spacing.after_type, word + tail);
        assert(word + tail =~= NULLABLE@ + (spacing.after_nullable + tail));
        assert(NULLABLE@.is_prefix_of(word + tail));
        assert((word + tail).skip(NULLABLE@.len() as int) =~= spacing.after_nullable + tail);
        lemma_trim_start_blank(spacing.after_nullable, tail);
    } else {
        assert(word + tail =~= tail);
        lemma_trim_start_blank(spacing.after_type, tail);
        if tail.len() > 0 {
            assert(tail[0] != NULLABLE@[0]);
        }
        assert(!NULLABLE@.is_prefix_of(tail));
        assert(trim_start(tail) == tail);
    }
}

/// The text of a non-empty list of columns starts with a type name.
pub proof fn lemma_columns_text_starts(columns: Seq<Column>, spacing: Seq<Spacing>)
    requires
        columns.len() >= 1,
    ensures
        columns_text(columns, spacing).len() > 0,
        !is_whitespace(columns_text(columns, spacing)[0]),
{
    lemma_literals();
    let name = columns[0].dtype.name();
    assert(column_text(columns[0], spacing[0])[0] == name[0]);
}

/// Every text that the grammar builds is read as the columns it was built
/// from: any number of columns from one on, each with either type name and
/// with or without `Nullable`, joined by separators, with any whitespace
/// behind each token.
pub proof fn lemma_columns_text_read(columns: Seq<Column>, spacing: Seq<Spacing>)
    requires
        columns.len() >= 1,
        spacing.len() == columns.len(),
        forall|i: int| 0 <= i < spacing.len() ==> (#[trigger] spacing[i]).is_blank(),
    ensures
        columns_spec(columns_text(columns, spacing)) == Ok::<_, Fault>(columns),
    decreases columns.len(),
{
    let first = column_text(columns[0], spacing[0]);
    assert(spacing[0].is_blank());
    if columns.len() == 1 {
        let none = Seq::<char>::empty();
        lemma_column_text_read(columns[0], spacing[0], none);
        assert(first + none =~= first);
        assert(seq![columns[0]] =~= columns);
    } else {
        let more = columns_text(columns.skip(1), spacing.skip(1));
        let tail = seq![SEPARATOR as char] + spacing[0].after_separator + more;
        assert(columns_text(columns, spacing) =~= first + tail);
        lemma_column_text_read(columns[0], spacing[0], tail);
        assert(tail.skip(1) =~= spacing[0].after_separator + more);
        lemma_columns_text_starts(columns.skip(1), spacing.skip(1));
        lemma_trim_start_blank(spacing[0].after_separator, more);
        assert(separator_spec(tail) == Ok::<_, Fault>(more));
        assert forall|i: int| 0 <= i < spacing.skip(1).len() implies (#[trigger] spacing.skip(
            1,
        )[i]).is_blank() by {
            assert(spacing[i + 1].is_blank());
        }
        lemma_columns_text_read(columns.skip(1), spacing.skip(1));
        assert(seq![columns[0]] + columns.skip(1) =~= columns);
    }
}

/// Every valid schema text is read as the columns it names.
///
/// A valid text is optional whitespace, then one column or more, joined by
/// separators; a column is `Float32` or `Int32`, then optionally `Nullable`;
/// any whitespace may follow each type name, each `Nullable` and each
/// separator. Reading it gives as many columns as the text has segments
/// between separators, each with the type and the nullability that its
/// segment names.
pub proof fn lemma_valid_schema_read(lead: Seq<char>, columns: Seq<Column>, spacing: Seq<Spacing>)
    requires
        is_blank(lead),
        columns.len() >= 1,
        spacing.len() == columns.len(),
        forall|i: int| 0 <= i < spacing.len() ==> (#[trigger] spacing[i]).is_blank(),
    ensures
        schema_spec(lead + columns_text(columns, spacing)) == Ok::<_, Fault>(columns),
{
    lemma_columns_text_starts(columns, spacing);
    lemma_trim_start_blank(lead, columns_text(columns, spacing));
    lemma_columns_text_read(columns, spacing);
}

/// A schema has at least one column.
pub proof fn lemma_schema_not_empty(text: Seq<char>)
    ensures
        schema_spec(text) matches Ok(columns) ==> columns.len() >= 1,
{
    lemma_columns_not_empty(trim_start(text));
}

/// A list of columns that was read has at least one column.
pub proof fn lemma_columns_not_empty(text: Seq<char>)
    ensures
        columns_spec(text) matches Ok(columns) ==> columns.len() >= 1,
{
}

/// Reading a schema is a function of its text: two results of reading the
/// same text are both columns, and then the same columns, or both the error.
pub proof fn lemma_parse_deterministic(
    text: Seq<char>,
    first: Result<Vec<Column>, KbtError>,
    second: Result<Vec<Column>, KbtError>,
)
    requires
        is_parse_of(text, first),
        is_parse_of(text, second),
    ensures
        first is Ok <==> second is Ok,
        first is Ok ==> first->Ok_0@ == second->Ok_0@,
        first is Err ==> first->Err_0 == second->Err_0,
{
}

/// The text `t` with the whitespace `w` behind it, where `t` is not empty.
pub open spec fn padded(t: Seq<char>, w: Seq<char>) -> Seq<char> {
    if t.len() > 0 {
        t + w
    } else {
        t
    }
}

/// Whether a text holds no whitespace at all.
pub open spec fn is_dense(t: Seq<char>) -> bool {
    forall|i: int| 0 <= i < t.len() ==> !is_whitespace(#[trigger] t[i])
}

/// The literals of the schema language hold no whitespace.
pub proof fn lemma_literals_dense()
    ensures
        is_dense(DataType::Float32.name()),
        is_dense(DataType::Int32.name()),
        is_dense(NULLABLE@),
        DataType::Float32.name().len() == 7,
        DataType::Int32.name().len() == 5,
        NULLABLE@.len() == 8,
{
    lemma_literals();
}

/// Whitespace behind a text is trimmed away with the text's own leading
/// whitespace where the text is nothing else, and stays where it is not.
pub proof fn lemma_trim_start_padded(s: Seq<char>, w: Seq<char>)
    requires
        is_blank(w),
    ensures
        trim_start(s + w) == padded(trim_start(s), w),
    decreases s.len(),
{
    if s.len() == 0 {
        assert(s + w =~= w + Seq::<char>::empty());
        lemma_trim_start_blank(w, Seq::<char>::empty());
    } else if is_whitespace(s[0]) {
        assert((s + w).skip(1) =~= s.skip(1) + w);
        lemma_trim_start_padded(s.skip(1), w);
    } else {
        assert((s + w)[0] == s[0]);
    }
}

/// Whitespace behind a text neither completes a literal nor breaks one.
pub proof fn lemma_prefix_padded(literal: Seq<char>, s: Seq<char>, w: Seq<char>)
    requires
        is_blank(w),
        is_dense(literal),
        literal.len() > 0,
    ensures
        literal.is_prefix_of(s + w) == literal.is_prefix_of(s),
        literal.is_prefix_of(s) ==> (s + w).skip(literal.len() as int) == s.skip(
            literal.len() as int,
        ) + w,
{
    let n = literal.len() as int;
    if literal.is_prefix_of(s) {
        assert((s + w).subrange(0, n) =~= s.subrange(0, n));
        assert((s + w).skip(n) =~= s.skip(n) + w);
    } else if literal.is_prefix_of(s + w) {
        if n <= s.len() {
            assert(s.subrange(0, n) =~= (s + w).subrange(0, n));
        } else {
            let k = s.len() as int;
            assert(literal[k] == (s + w).subrange(0, n)[k]);
            assert((s + w)[k] == w[0]);
            assert(is_whitespace(w[0]));
        }
    }
}

/// Whitespace behind a text that starts with a column does not change the
/// column that is read, and stays behind what is left.
pub proof fn lemma_column_padded(t: Seq<char>, w: Seq<char>)
    requires
        is_blank(w),
    ensures
        column_spec(padded(t, w)) == match column_spec(t) {
            Ok((column, rest)) => Ok::<_, Fault>((column, padded(rest, w))),
            Err(fault) => Err(fault),
        },
{
    lemma_literals_dense();
    if t.len() > 0 {
        let u = t + w;
        assert(u[0] == t[0]);
        let float32 = DataType::Float32.name();
        let int32 = DataType::Int32.name();
        lemma_prefix_padded(float32, t, w);
        lemma_prefix_padded(int32, t, w);
        if let Ok((dtype, after_type)) = datatype_spec(t) {
            let n = dtype.name().len() as int;
            lemma_trim_start_padded(t.skip(n), w);
            assert(datatype_spec(u) == Ok::<_, Fault>((dtype, padded(after_type, w))));
            if after_type.len() > 0 {
                lemma_prefix_padded(NULLABLE@, after_type, w);
                if NULLABLE@.is_prefix_of(after_type) {
                    lemma_trim_start_padded(after_type.skip(NULLABLE@.len() as int), w);
                } else {
                    lemma_trim_start_padded(after_type, w);
                }
            }
            let (nullable, rest) = nullable_spec(after_type);
            assert(nullable_spec(padded(after_type, w)) == (nullable, padded(rest, w)));
        }
    }
}

/// Whitespace behind a list of columns does not change what is read.
pub proof fn lemma_columns_padded(t: Seq<char>, w: Seq<char>)
    requires
        is_blank(w),
    ensures
        columns_spec(padded(t, w)) == columns_spec(t),
    decreases t.len(),
{
    lemma_column_padded(t, w);
    if let Ok((column, rest)) = column_spec(t) {
        lemma_column_consumes(t);
        if rest.len() > 0 {
            let u = rest + w;
            assert(u[0] == rest[0]);
            if let Ok(more) = separator_spec(rest) {
                assert(u.skip(1) =~= rest.skip(1) + w);
                lemma_trim_start_padded(rest.skip(1), w);
                lemma_trim_start_is_suffix(rest.skip(1));
                assert(separator_spec(u) == Ok::<_, Fault>(padded(more, w)));
                lemma_columns_padded(more, w);
            }
        }
    }
}

/// Whitespace at the end of a schema text is tolerated: with it the text
/// reads as it does without it, be it as columns or as a fault.
pub proof fn lemma_trailing_whitespace(text: Seq<char>, w: Seq<char>)
    requires
        is_blank(w),
    ensures
        schema_spec(text + w) == schema_spec(text),
{
    lemma_trim_start_padded(text, w);
    lemma_columns_padded(trim_start(text), w);
}

} // verus!
