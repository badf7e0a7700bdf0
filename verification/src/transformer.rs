//! The row processor: aligns each input record with the output headers,
//! binds the raw values into the expression context, evaluates the optional
//! filter (fail-open) and each non-excluded column's optional transform
//! (fail-closed), and assembles the output record.

use vstd::prelude::*;
use crate::config::{ColDef, Config, lookup_def};
use crate::headers::{HeaderInfo, get_header_info, views_of};
use crate::script::ExprContext;

verus! {

/// Why a run stops: the fatal outcomes of header reconciliation and row
/// processing. A filter failure is not here: it is recovered locally by
/// keeping the row.
#[derive(Debug, PartialEq, Eq)]
pub enum RunError {
    /// The input stream yielded no header row.
    MissingHeader,
    /// A raw value could not be bound under its column's name.
    BindingFailed { column: String },
    /// A column's transform expression failed to evaluate to a string.
    TransformFailed { column: String, expression: String, detail: String },
}

/// One runtime column of a row: its definition and the row's raw value.
pub struct Column {
    pub def: ColDef,
    pub value: String,
}

/// The definition a header name resolves to: the first declaration of that
/// name, or a default (no transform, not excluded) synthesized for it.
pub open spec fn col_resolved(decls: Seq<ColDef>, name: Seq<char>, def: ColDef) -> bool {
    match lookup_def(decls, name) {
        Some(d) => def == d,
        None => def.name@ == name && def.func is None && def.exclude is None,
    }
}

/// The raw value of position `i`: the record's field there, or the empty
/// string where the record is shorter than the headers.
pub open spec fn aligned_value(values: Seq<String>, i: int) -> Seq<char> {
    if 0 <= i < values.len() {
        values[i]@
    } else {
        Seq::empty()
    }
}

/// The columns of a row, aligned one to one with the headers.
pub open spec fn row_aligned(
    decls: Seq<ColDef>,
    headers: Seq<String>,
    values: Seq<String>,
    cols: Seq<Column>,
) -> bool {
    &&& cols.len() == headers.len()
    &&& forall|i: int|
        0 <= i < cols.len() ==> col_resolved(decls, headers[i]@, #[trigger] cols[i].def)
            && cols[i].value@ == aligned_value(values, i)
}

/// The bindings after installing the first `n` columns of a row over `base`,
/// in order, a later column overwriting an earlier one of the same name.
pub open spec fn bind_upto(
    base: Map<Seq<char>, Seq<char>>,
    cols: Seq<Column>,
    n: int,
) -> Map<Seq<char>, Seq<char>>
    decreases n,
{
    if n <= 0 {
        base
    } else {
        bind_upto(base, cols, n - 1).insert(cols[n - 1].def.name@, cols[n - 1].value@)
    }
}

/// The bindings a record owes the expression context: every header name
/// bound to that row's raw value, absent fields reading as empty.
pub open spec fn raw_bind_upto(
    base: Map<Seq<char>, Seq<char>>,
    headers: Seq<String>,
    values: Seq<String>,
    n: int,
) -> Map<Seq<char>, Seq<char>>
    decreases n,
{
    if n <= 0 {
        base
    } else {
        raw_bind_upto(base, headers, values, n - 1).insert(
            headers[n - 1]@,
            aligned_value(values, n - 1),
        )
    }
}

/// A resolved definition carries the name it was looked up under.
pub proof fn lemma_lookup_name(decls: Seq<ColDef>, name: Seq<char>)
    ensures
        lookup_def(decls, name) is Some ==> lookup_def(decls, name).unwrap().name@ == name,
    decreases decls.len(),
{
    if decls.len() > 0 && decls[0].name@ != name {
        lemma_lookup_name(decls.drop_first(), name);
    }
}

/// Law: the values a row binds into the expression context are exactly the
/// raw field values aligned to the headers, with the empty string standing
/// for the fields the record does not carry.
pub proof fn lemma_bindings_are_raw(
    base: Map<Seq<char>, Seq<char>>,
    decls: Seq<ColDef>,
    headers: Seq<String>,
    values: Seq<String>,
    cols: Seq<Column>,
    n: int,
)
    requires
        row_aligned(decls, headers, values, cols),
        0 <= n <= cols.len(),
    ensures
        bind_upto(base, cols, n) == raw_bind_upto(base, headers, values, n),
    decreases n,
{
    if n > 0 {
        lemma_bindings_are_raw(base, decls, headers, values, cols, n - 1);
        lemma_lookup_name(decls, headers[n - 1]@);
        assert(cols[n - 1].def.name@ == headers[n - 1]@);
    }
}

/// Law: after a row is bound, a header whose name is not repeated later in
/// the header list reads exactly its raw field value — the source field at
/// its position, or the empty string where the record is shorter. A name
/// repeated later reads the later position's value, as binding order makes
/// the last occurrence win.
pub proof fn lemma_raw_binding_lookup(
    base: Map<Seq<char>, Seq<char>>,
    headers: Seq<String>,
    values: Seq<String>,
    n: int,
    i: int,
)
    requires
        0 <= i < n <= headers.len(),
        forall|j: int| i < j < n ==> headers[j]@ != headers[i]@,
    ensures
        raw_bind_upto(base, headers, values, n).contains_key(headers[i]@),
        raw_bind_upto(base, headers, values, n)[headers[i]@] == aligned_value(values, i),
    decreases n,
{
    if n - 1 > i {
        lemma_raw_binding_lookup(base, headers, values, n - 1, i);
    }
}

/// The non-excluded columns of a row, in row order.
pub open spec fn kept_cols(cols: Seq<Column>) -> Seq<Column>
    decreases cols.len(),
{
    if cols.len() == 0 {
        Seq::empty()
    } else {
        let rest = kept_cols(cols.drop_last());
        if cols.last().def.spec_excluded() {
            rest
        } else {
            rest.push(cols.last())
        }
    }
}

/// Whether the definition a header resolves to excludes it from the output.
pub open spec fn header_excluded(decls: Seq<ColDef>, name: Seq<char>) -> bool {
    match lookup_def(decls, name) {
        Some(d) => d.spec_excluded(),
        None => false,
    }
}

/// The transform expression the definition a header resolves to declares.
pub open spec fn header_func(decls: Seq<ColDef>, name: Seq<char>) -> Option<String> {
    match lookup_def(decls, name) {
        Some(d) => d.func,
        None => None,
    }
}

/// The definition a header resolves to carries the header's name, the
/// header's exclusion and the header's transform: resolution adds nothing.
pub proof fn lemma_resolved_props(decls: Seq<ColDef>, name: Seq<char>, def: ColDef)
    requires
        col_resolved(decls, name, def),
    ensures
        def.name@ == name,
        def.spec_excluded() == header_excluded(decls, name),
        def.func == header_func(decls, name),
{
    lemma_lookup_name(decls, name);
}

/// What an error of row processing may be: a binding failure naming one of
/// the output headers, or a transform failure naming a non-excluded header
/// that resolves to a declared transform, together with that expression.
pub open spec fn row_error_attributed(decls: Seq<ColDef>, headers: Seq<String>, e: RunError) -> bool {
    ||| (e matches RunError::BindingFailed { column } && exists|k: int|
        0 <= k < headers.len() && column@ == #[trigger] headers[k]@)
    ||| (e matches RunError::TransformFailed { column, expression, .. } && exists|k: int|
        0 <= k < headers.len() && column@ == #[trigger] headers[k]@ && !header_excluded(
            decls,
            headers[k]@,
        ) && header_func(decls, headers[k]@) is Some && expression@ == header_func(
            decls,
            headers[k]@,
        ).unwrap()@)
}

/// What an emitted output record owes its input record: one field per
/// non-excluded output header, each untransformed field carrying the raw
/// value its header aligns to.
pub open spec fn emitted_row_matches(
    decls: Seq<ColDef>,
    headers: Seq<String>,
    record: Seq<String>,
    out: Seq<String>,
) -> bool {
    &&& out.len() == kept_names(decls, headers).len()
    &&& exists|cols: Seq<Column>|
        {
            &&& #[trigger] row_aligned(decls, headers, record, cols)
            &&& out.len() == kept_cols(cols).len()
            &&& forall|k: int|
                0 <= k < out.len() && (#[trigger] kept_cols(cols)[k]).def.func is None
                    ==> out[k]@ == kept_cols(cols)[k].value@
        }
}

/// The output headers that survive exclusion, in output order.
pub open spec fn kept_names(decls: Seq<ColDef>, headers: Seq<String>) -> Seq<Seq<char>>
    decreases headers.len(),
{
    if headers.len() == 0 {
        Seq::empty()
    } else {
        let rest = kept_names(decls, headers.drop_last());
        if header_excluded(decls, headers.last()@) {
            rest
        } else {
            rest.push(headers.last()@)
        }
    }
}

/// Law: which columns a row keeps, and under which names, depends on the
/// declarations and the headers alone, never on the row's values.
pub proof fn lemma_kept_cols_names(
    decls: Seq<ColDef>,
    headers: Seq<String>,
    values: Seq<String>,
    cols: Seq<Column>,
)
    requires
        row_aligned(decls, headers, values, cols),
    ensures
        kept_cols(cols).len() == kept_names(decls, headers).len(),
        forall|k: int|
            0 <= k < kept_cols(cols).len() ==> (#[trigger] kept_cols(cols)[k]).def.name@
                == kept_names(decls, headers)[k],
    decreases cols.len(),
{
    if cols.len() > 0 {
        let ch = cols.drop_last();
        let hh = headers.drop_last();
        assert forall|i: int| 0 <= i < ch.len() implies col_resolved(
            decls,
            hh[i]@,
            #[trigger] ch[i].def,
        ) && ch[i].value@ == aligned_value(values, i) by {
            assert(ch[i] == cols[i]);
            assert(hh[i] == headers[i]);
        }
        assert(row_aligned(decls, hh, values, ch));
        lemma_kept_cols_names(decls, hh, values, ch);
        assert(col_resolved(decls, headers.last()@, cols.last().def));
        lemma_lookup_name(decls, headers.last()@);
        assert(cols.last().def.spec_excluded() == header_excluded(decls, headers.last()@));
        assert(cols.last().def.name@ == headers.last()@);
    }
}

/// Keeps a row exactly when the filter did not succeed with `false`: a
/// successful evaluation decides, and any evaluation failure keeps the row
/// (fail-open), so a broken filter never loses data.
pub fn keep_on_filter_outcome(outcome: Result<bool, ()>) -> (keep: bool)
    ensures
        keep == (outcome != Ok::<bool, ()>(false)),
        outcome is Err ==> keep,
{
    match outcome {
        Ok(b) => b,
        Err(()) => true,
    }
}

impl Column {
    pub fn new(def: ColDef, value: String) -> (c: Column)
        ensures
            c.def == def,
            c.value == value,
    {
        Column { def, value }
    }

    pub fn get_name(&self) -> (r: &str)
        ensures
            r@ == self.def.name@,
    {
        self.def.get_name()
    }

    pub fn get_value(&self) -> (r: &str)
        ensures
            r@ == self.value@,
    {
        self.value.as_str()
    }

    pub fn is_excluded(&self) -> (r: bool)
        ensures
            r == self.def.spec_excluded(),
    {
        match self.def.get_exclude() {
            Some(b) => *b,
            None => false,
        }
    }

    /// The column's output value for this row: the raw value where no
    /// transform is declared, else whatever the transform expression
    /// evaluates to against the context's current bindings. A failed
    /// transform is fatal and reports the column and its expression.
    pub fn get_value_with_context(&self, ctx: &ExprContext) -> (r: Result<String, RunError>)
        ensures
            self.def.func is None ==> r is Ok && r->Ok_0@ == self.value@,
            r is Err ==> self.def.func is Some,
            r is Err ==> (r->Err_0 matches RunError::TransformFailed { column, expression, .. }
                && column@ == self.def.name@ && expression@ == self.def.func.unwrap()@),
    {
        match self.def.get_func() {
            Some(f) => {
                match ctx.eval_string(f.as_str()) {
                    Ok(s) => Ok(s),
                    Err(detail) => Err(
                        RunError::TransformFailed {
                            column: self.def.name.clone(),
                            expression: f.clone(),
                            detail,
                        },
                    ),
                }
            },
            None => Ok(self.value.clone()),
        }
    }
}

/// One input record, aligned with the output headers.
pub struct Row {
    pub cols: Vec<Column>,
}

impl Row {
    /// Aligns a record with the output headers: position `i` pairs the
    /// definition that header `i` resolves to with the record's field there,
    /// or with the empty string where the record is short. Declared-but-
    /// absent columns therefore always read as empty.
    pub fn new(config: &Config, header_info: &HeaderInfo, values: &Vec<String>) -> (r: Row)
        ensures
            row_aligned(config.columns@, header_info.total_headers@, values@, r.cols@),
    {
        let headers = &header_info.total_headers;
        let mut cols: Vec<Column> = Vec::new();
        let mut i: usize = 0;
        while i < headers.len()
            invariant
                i <= headers@.len(),
                cols@.len() == i,
                forall|j: int|
                    0 <= j < i ==> col_resolved(
                        config.columns@,
                        headers@[j]@,
                        #[trigger] cols@[j].def,
                    ) && cols@[j].value@ == aligned_value(values@, j),
            decreases headers@.len() - i,
        {
            let def = match config.get_column_definition(headers[i].as_str()) {
                Some(d) => d.duplicate(),
                None => ColDef::new(headers[i].clone()),
            };
            let value = if i < values.len() {
                values[i].clone()
            } else {
                String::new()
            };
            cols.push(Column::new(def, value));
            i = i + 1;
        }
        Row { cols }
    }

    /// Installs every column's raw value into the expression context, in row
    /// order. Binding is not transactional: on a failure the bindings
    /// installed so far remain, and the failing column is reported.
    pub fn set_context(&self, ctx: &mut ExprContext) -> (r: Result<(), RunError>)
        ensures
            r is Ok ==> final (ctx)@ == bind_upto(old(ctx)@, self.cols@, self.cols@.len() as int),
            r is Err ==> exists|k: int|
                0 <= k <= self.cols@.len() && final (ctx)@ == bind_upto(old(ctx)@, self.cols@, k),
            r is Err ==> (r->Err_0 matches RunError::BindingFailed { column } && exists|k: int|
                0 <= k < self.cols@.len() && column@ == #[trigger] self.cols@[k].def.name@),
    {
        let mut i: usize = 0;
        while i < self.cols.len()
            invariant
                i <= self.cols@.len(),
                ctx@ == bind_upto(old(ctx)@, self.cols@, i as int),
            decreases self.cols@.len() - i,
        {
            let col = &self.cols[i];
            match ctx.set_var(col.def.get_name(), col.value.as_str()) {
                Ok(()) => {},
                Err(()) => {
                    return Err(RunError::BindingFailed { column: col.def.name.clone() });
                },
            }
            i = i + 1;
        }
        Ok(())
    }

    /// Whether the row passes the optional filter: no filter keeps every
    /// row, and a filter that fails to evaluate keeps the row (fail-open).
    pub fn filter(&self, filter: &Option<String>, ctx: &ExprContext) -> (keep: bool)
        ensures
            filter is None ==> keep,
    {
        match filter {
            Some(f) => keep_on_filter_outcome(ctx.eval_bool(f.as_str())),
            None => true,
        }
    }

    /// Assembles the output record: every non-excluded column in row order,
    /// each either passing its raw value through or transformed against the
    /// same raw bindings. The first failing transform aborts the row.
    pub fn to_string_record(&self, ctx: &ExprContext) -> (r: Result<Vec<String>, RunError>)
        ensures
            r is Ok ==> r->Ok_0@.len() == kept_cols(self.cols@).len(),
            r is Ok ==> forall|k: int|
                0 <= k < kept_cols(self.cols@).len() && (#[trigger] kept_cols(
                    self.cols@,
                )[k]).def.func is None ==> r->Ok_0@[k]@ == kept_cols(self.cols@)[k].value@,
            r is Err ==> exists|k: int|
                0 <= k < self.cols@.len() && !(#[trigger] self.cols@[k].def).spec_excluded()
                    && self.cols@[k].def.func is Some && (r->Err_0 matches
                RunError::TransformFailed { column, expression, .. } && column@
                    == self.cols@[k].def.name@ && expression@ == self.cols@[k].def.func.unwrap()@),
    {
        let mut out: Vec<String> = Vec::new();
        let mut i: usize = 0;
        while i < self.cols.len()
            invariant
                i <= self.cols@.len(),
                out@.len() == kept_cols(self.cols@.take(i as int)).len(),
                forall|k: int|
                    0 <= k < out@.len() && (#[trigger] kept_cols(
                        self.cols@.take(i as int),
                    )[k]).def.func is None ==> out@[k]@ == kept_cols(
                        self.cols@.take(i as int),
                    )[k].value@,
            decreases self.cols@.len() - i,
        {
            let ghost pre = self.cols@.take(i as int);
            proof {
                assert(self.cols@.take(i + 1).drop_last() =~= pre);
                assert(self.cols@.take(i + 1).last() == self.cols@[i as int]);
            }
            let col = &self.cols[i];
            if !col.is_excluded() {
                match col.get_value_with_context(ctx) {
                    Ok(v) => {
                        out.push(v);
                    },
                    Err(e) => {
                        return Err(e);
                    },
                }
            }
            i = i + 1;
        }
        proof {
            assert(self.cols@.take(self.cols@.len() as int) =~= self.cols@);
        }
        Ok(out)
    }

    /// The output header row: the name of every non-excluded column, in row
    /// order.
    pub fn get_output_headers(&self) -> (r: Vec<String>)
        ensures
            r@.len() == kept_cols(self.cols@).len(),
            forall|k: int|
                0 <= k < r@.len() ==> r@[k]@ == (#[trigger] kept_cols(self.cols@)[k]).def.name@,
    {
        let mut out: Vec<String> = Vec::new();
        let mut i: usize = 0;
        while i < self.cols.len()
            invariant
                i <= self.cols@.len(),
                out@.len() == kept_cols(self.cols@.take(i as int)).len(),
                forall|k: int|
                    0 <= k < out@.len() ==> out@[k]@ == (#[trigger] kept_cols(
                        self.cols@.take(i as int),
                    )[k]).def.name@,
            decreases self.cols@.len() - i,
        {
            let ghost pre = self.cols@.take(i as int);
            proof {
                assert(self.cols@.take(i + 1).drop_last() =~= pre);
                assert(self.cols@.take(i + 1).last() == self.cols@[i as int]);
            }
            let col = &self.cols[i];
            if !col.is_excluded() {
                out.push(col.def.name.clone());
            }
            i = i + 1;
        }
        proof {
            assert(self.cols@.take(self.cols@.len() as int) =~= self.cols@);
        }
        out
    }
}

/// Reconciles the input's header row with the declared columns. An input
/// that yields no header row is fatal, before any row is processed.
pub fn reconcile_headers(config: &Config, source_headers: Option<&Vec<String>>) -> (r: Result<
    HeaderInfo,
    RunError,
>)
    ensures
        r is Ok <==> source_headers is Some,
        r is Err ==> (r->Err_0 is MissingHeader),
        r is Ok ==> r->Ok_0.wf(*config, views_of(source_headers.unwrap()@)),
{
    match source_headers {
        Some(h) => Ok(get_header_info(config, h)),
        None => Err(RunError::MissingHeader),
    }
}

/// The header row the output starts with when header emission is enabled:
/// every non-excluded output header, in output order.
pub fn output_header_row(config: &Config, header_info: &HeaderInfo) -> (r: Vec<String>)
    ensures
        r@.len() == kept_names(config.columns@, header_info.total_headers@).len(),
        forall|k: int|
            0 <= k < r@.len() ==> r@[k]@ == kept_names(
                config.columns@,
                header_info.total_headers@,
            )[k],
{
    let no_values: Vec<String> = Vec::new();
    let row = Row::new(config, header_info, &no_values);
    let out = row.get_output_headers();
    proof {
        lemma_kept_cols_names(
            config.columns@,
            header_info.total_headers@,
            no_values@,
            row.cols@,
        );
        assert forall|k: int| 0 <= k < out@.len() implies out@[k]@ == kept_names(
            config.columns@,
            header_info.total_headers@,
        )[k] by {
            assert(out@[k]@ == (kept_cols(row.cols@)[k]).def.name@);
        }
    }
    out
}

/// Processes one record, strictly in order: align the raw values to the
/// output headers, bind them all into the expression context, evaluate the
/// optional filter (fail-open), then evaluate each non-excluded column
/// against those same raw bindings (fail-closed) and assemble the output.
/// `Ok(None)` is a row the filter dropped; an error aborts the run.
pub fn process_record(
    config: &Config,
    header_info: &HeaderInfo,
    ctx: &mut ExprContext,
    record: &Vec<String>,
) -> (r: Result<Option<Vec<String>>, RunError>)
    ensures
        // The context ends the row holding exactly the raw bindings: no
        // transform result is ever fed back into it.
        r is Ok ==> final (ctx)@ == raw_bind_upto(
            old(ctx)@,
            header_info.total_headers@,
            record@,
            header_info.total_headers@.len() as int,
        ),
        // Even a failed row leaves only raw bindings, possibly partial.
        exists|k: int|
            0 <= k <= header_info.total_headers@.len() && final (ctx)@ == raw_bind_upto(
                old(ctx)@,
                header_info.total_headers@,
                record@,
                k,
            ),
        // Only the filter drops rows: without one, a processed row is
        // always emitted.
        config.filter is None ==> !(r matches Ok(None)),
        // An emitted record has one field per non-excluded output header,
        // and every untransformed field carries its raw value through.
        (match r {
            Ok(Some(out)) => emitted_row_matches(
                config.columns@,
                header_info.total_headers@,
                record@,
                out@,
            ),
            _ => true,
        }),
        // An error names its column: a binding failure on one of the output
        // headers, or a transform failure on a non-excluded header with a
        // declared transform, reporting that expression.
        r is Err ==> row_error_attributed(
            config.columns@,
            header_info.total_headers@,
            r->Err_0,
        ),
{
    let ghost headers = header_info.total_headers@;
    let row = Row::new(config, header_info, record);
    let ghost n = row.cols@.len() as int;
    match row.set_context(ctx) {
        Ok(()) => {
            proof {
                lemma_bindings_are_raw(old(ctx)@, config.columns@, headers, record@, row.cols@, n);
            }
        },
        Err(e) => {
            proof {
                let k = choose|k: int|
                    0 <= k <= row.cols@.len() && ctx@ == bind_upto(old(ctx)@, row.cols@, k);
                lemma_bindings_are_raw(old(ctx)@, config.columns@, headers, record@, row.cols@, k);
                let col_view: Seq<char> = match &e {
                    RunError::BindingFailed { column } => column@,
                    _ => Seq::empty(),
                };
                let kc = choose|k: int|
                    0 <= k < row.cols@.len() && col_view == #[trigger] row.cols@[k].def.name@;
                lemma_resolved_props(config.columns@, headers[kc]@, row.cols@[kc].def);
                assert(col_view == headers[kc]@);
            }
            return Err(e);
        },
    }
    if !row.filter(&config.filter, ctx) {
        return Ok(None);
    }
    match row.to_string_record(ctx) {
        Ok(v) => {
            proof {
                lemma_kept_cols_names(config.columns@, headers, record@, row.cols@);
            }
            Ok(Some(v))
        },
        Err(e) => {
            proof {
                let kc = choose|k: int|
                    0 <= k < row.cols@.len() && !(#[trigger] row.cols@[k].def).spec_excluded()
                        && row.cols@[k].def.func is Some && (e matches RunError::TransformFailed {
                        column,
                        expression,
                        ..
                    } && column@ == row.cols@[k].def.name@ && expression@
                        == row.cols@[k].def.func.unwrap()@);
                lemma_resolved_props(config.columns@, headers[kc]@, row.cols@[kc].def);
                assert(headers[kc]@ == headers[kc]@);
            }
            Err(e)
        },
    }
}

/// Every output row in `out` was produced from a record at or after its own
/// position and before `bound`, in the sense of `emitted_row_matches`.
pub open spec fn rows_from_records(
    decls: Seq<ColDef>,
    headers: Seq<String>,
    records: Seq<Vec<String>>,
    out: Seq<Vec<String>>,
    bound: int,
) -> bool {
    forall|j: int|
        0 <= j < out.len() ==> exists|i: int|
            j <= i < bound && emitted_row_matches(
                decls,
                headers,
                records[i]@,
                (#[trigger] out[j])@,
            )
}

/// Drives the row processor over a batch of records, in order, stopping at
/// the first fatal error: when the run fails at record `i`, no record after
/// `i` has contributed an output row.
pub fn process_records(
    config: &Config,
    header_info: &HeaderInfo,
    ctx: &mut ExprContext,
    records: &Vec<Vec<String>>,
) -> (r: (Vec<Vec<String>>, Option<(usize, RunError)>))
    ensures
        r.0@.len() <= records@.len(),
        r.1 is Some ==> r.1.unwrap().0 < records@.len() && r.0@.len() <= r.1.unwrap().0 as int,
        // Without a filter, every record processed so far was emitted: one
        // row per record on success, exactly the rows before the failing
        // record on failure.
        config.filter is None && r.1 is None ==> r.0@.len() == records@.len(),
        config.filter is None && r.1 is Some ==> r.0@.len() == r.1.unwrap().0 as int,
        // A failure names its column, as a binding or transform failure on
        // an output header of this run.
        r.1 is Some ==> row_error_attributed(
            config.columns@,
            header_info.total_headers@,
            r.1.unwrap().1,
        ),
        // Each emitted row was produced from a record at or after its own
        // position — and before the failing record, when there is one.
        r.1 is None ==> rows_from_records(
            config.columns@,
            header_info.total_headers@,
            records@,
            r.0@,
            records@.len() as int,
        ),
        r.1 is Some ==> rows_from_records(
            config.columns@,
            header_info.total_headers@,
            records@,
            r.0@,
            r.1.unwrap().0 as int,
        ),
        // Without a filter, row `j` is the output of record `j`.
        config.filter is None ==> forall|j: int|
            0 <= j < r.0@.len() ==> emitted_row_matches(
                config.columns@,
                header_info.total_headers@,
                records@[j]@,
                (#[trigger] r.0@[j])@,
            ),
        // Every emitted row has one field per non-excluded output header.
        forall|j: int|
            0 <= j < r.0@.len() ==> (#[trigger] r.0@[j])@.len() == kept_names(
                config.columns@,
                header_info.total_headers@,
            ).len(),
{
    let mut out: Vec<Vec<String>> = Vec::new();
    let mut i: usize = 0;
    while i < records.len()
        invariant
            i <= records@.len(),
            out@.len() <= i,
            config.filter is None ==> out@.len() == i,
            rows_from_records(
                config.columns@,
                header_info.total_headers@,
                records@,
                out@,
                i as int,
            ),
            forall|j: int|
                0 <= j < out@.len() ==> (#[trigger] out@[j])@.len() == kept_names(
                    config.columns@,
                    header_info.total_headers@,
                ).len(),
            config.filter is None ==> forall|j: int|
                0 <= j < out@.len() ==> emitted_row_matches(
                    config.columns@,
                    header_info.total_headers@,
                    records@[j]@,
                    (#[trigger] out@[j])@,
                ),
        decreases records@.len() - i,
    {
        match process_record(config, header_info, ctx, &records[i]) {
            Ok(Some(v)) => {
                let ghost out_pre = out@;
                out.push(v);
                proof {
                    assert forall|j: int| 0 <= j < out@.len() implies exists|ii: int|
                        j <= ii < i + 1 && emitted_row_matches(
                            config.columns@,
                            header_info.total_headers@,
                            records@[ii]@,
                            (#[trigger] out@[j])@,
                        ) by {
                        if j < out_pre.len() {
                            assert(out@[j] == out_pre[j]);
                            let ii = choose|ii: int|
                                j <= ii < i && emitted_row_matches(
                                    config.columns@,
                                    header_info.total_headers@,
                                    records@[ii]@,
                                    out_pre[j]@,
                                );
                            assert(j <= ii < i + 1);
                        } else {
                            assert(out@[j]@ == v@);
                            assert(emitted_row_matches(
                                config.columns@,
                                header_info.total_headers@,
                                records@[i as int]@,
                                out@[j]@,
                            ));
                        }
                    }
                    assert(rows_from_records(
                        config.columns@,
                        header_info.total_headers@,
                        records@,
                        out@,
                        i + 1,
                    ));
                }
            },
            Ok(None) => {},
            Err(e) => {
                return (out, Some((i, e)));
            },
        }
        i = i + 1;
    }
    (out, None)
}

} // verus!
