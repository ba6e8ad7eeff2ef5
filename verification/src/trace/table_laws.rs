//! Laws of counters, of what is read from tables, of breaks in time, and of the command line.

use vstd::prelude::*;

use crate::batch::{named, Batch, Column, NamedColumn};
use crate::decimal::{dec, dec_int, parse_usize_of};
use crate::path::{file_stem_of, joined, parent_of};
use crate::trace::command_line::{
    analysis_named, entry_of, num_cpus_in, output_path, AnalysisType, CommandErrorView, KeyValue,
};
use crate::trace::cpu_time_counter::{fresh_counter, CounterView};
use crate::trace::error::TraceErrorView;
use crate::trace::event::{events_of, has_cpi, EventView};
use crate::trace::monotonicity_analysis::{batch_line, break_lines, last_of, timestamps_of};

verus! {

// ---------------------------------------------------------------------------
// Counters
// ---------------------------------------------------------------------------

/// Once a counter was updated, each of its threads adds all the time that passes; before that, and
/// without threads, nothing is added. An update changes no thread, and a change of threads no time.
pub proof fn law_threads_add_the_time_that_passes(c: CounterView, a: nat, b: nat, k: int)
    requires
        c.last <= a <= b,
        c.threads + k >= 0,
    ensures
        c.last > 0 ==> c.time_at(b) - c.time_at(a) == (b - a) * c.threads,
        c.last == 0 || c.threads == 0 ==> c.time_at(b) == c.aggregate,
        c.time_at(c.last) == c.aggregate,
        c.updated(a).threads == c.threads,
        c.updated(a).last == a,
        c.with_more(k).threads == c.threads + k,
        c.with_more(k).time_at(c.last) == c.time_at(c.last),
        c.with_more(k).last == c.last,
        fresh_counter().time_at(b) == 0,
        fresh_counter().threads == 0,
{
    assert((b - c.last) * c.threads - (a - c.last) * c.threads == (b - a) * c.threads)
        by (nonlinear_arith);
    assert((c.last - c.last) * c.threads == 0) by (nonlinear_arith);
    assert((c.last - c.last) * c.with_more(k).threads == 0) by (nonlinear_arith);
    if c.threads == 0 {
        assert((b - c.last) * 0 == 0);
    }
}

// ---------------------------------------------------------------------------
// Tables
// ---------------------------------------------------------------------------

/// Whether a place holds the first column of a name.
pub open spec fn is_first(columns: Seq<NamedColumn>, name: Seq<char>, i: int) -> bool {
    &&& 0 <= i < columns.len()
    &&& columns[i].name@ == name
    &&& forall|j: int| 0 <= j < i ==> (#[trigger] columns[j]).name@ != name
}

/// A column is found by its name exactly where there is one, and it is the first of that name.
pub proof fn law_first_column_is_found(columns: Seq<NamedColumn>, name: Seq<char>)
    ensures
        match named(columns, name) {
            Some(c) => exists|i: int|
                #![trigger columns[i]]
                is_first(columns, name, i) && columns[i].column == c,
            None => forall|i: int| 0 <= i < columns.len() ==> (#[trigger] columns[i]).name@ != name,
        },
    decreases columns.len(),
{
    if columns.len() > 0 {
        if columns[0].name@ == name {
            assert(is_first(columns, name, 0));
            assert(columns[0].column == named(columns, name).unwrap());
        } else {
            let rest = columns.drop_first();
            law_first_column_is_found(rest, name);
            match named(rest, name) {
                Some(c) => {
                    let i = choose|i: int|
                        #![trigger rest[i]]
                        is_first(rest, name, i) && rest[i].column == c;
                    assert(columns[i + 1] == rest[i]);
                    assert forall|j: int| 0 <= j < i + 1 implies (#[trigger] columns[j]).name@
                        != name by {
                        if j > 0 {
                            assert(columns[j] == rest[j - 1]);
                        }
                    }
                    assert(is_first(columns, name, i + 1));
                    assert(columns[i + 1].column == c);
                },
                None => {
                    assert forall|i: int| 0 <= i < columns.len() implies (
                    #[trigger] columns[i]).name@ != name by {
                        if i > 0 {
                            assert(columns[i] == rest[i - 1]);
                        }
                    }
                },
            }
        }
    }
}

/// The values of a column are had exactly where the column is there and of the wanted type; one that
/// is missing and one of another type are told apart, by name.
pub proof fn law_columns_are_of_their_type(b: &Batch, name: Seq<char>)
    ensures
        b.find(name) is None ==> b.int64_of(name) == Err::<Seq<i64>, TraceErrorView>(
            TraceErrorView::MissingColumn(name),
        ),
        b.find(name) is None ==> b.int32_of(name) == Err::<(Seq<i32>, Seq<bool>), TraceErrorView>(
            TraceErrorView::MissingColumn(name),
        ),
        b.find(name) is None ==> b.boolean_of(name) == Err::<Seq<bool>, TraceErrorView>(
            TraceErrorView::MissingColumn(name),
        ),
        b.find(name) is None ==> b.utf8_of(name) == Err::<Seq<String>, TraceErrorView>(
            TraceErrorView::MissingColumn(name),
        ),
        b.find(name) is None ==> timestamps_of(b) is Err || name != "timestamp"@,
        b.int64_of(name) is Ok <==> (b.find(name) matches Some(c) && c is Int64),
        b.int32_of(name) is Ok <==> (b.find(name) matches Some(c) && c is Int32),
        b.boolean_of(name) is Ok <==> (b.find(name) matches Some(c) && c is Boolean),
        b.utf8_of(name) is Ok <==> (b.find(name) matches Some(c) && c is Utf8),
        timestamps_of(b) is Ok <==> b.int64_of("timestamp"@) is Ok,
        timestamps_of(b) is Ok ==> timestamps_of(b)->Ok_0 == b.int64_of("timestamp"@)->Ok_0,
        b.find(name) matches Some(Column::Int64(v)) ==> b.int64_of(name)->Ok_0 == v@,
        b.find(name) matches Some(Column::Int32(v, nulls)) ==> b.int32_of(name)->Ok_0 == (
            v@,
            nulls@,
        ),
        b.find(name) matches Some(Column::Boolean(v)) ==> b.boolean_of(name)->Ok_0 == v@,
        b.find(name) matches Some(Column::Utf8(v)) ==> b.utf8_of(name)->Ok_0 == v@,
        b.find(name) is Some && b.int64_of(name) is Err ==> b.int64_of(name)->Err_0
            == TraceErrorView::InvalidColumnType(name),
        b.find(name) is Some && b.int32_of(name) is Err ==> b.int32_of(name)->Err_0
            == TraceErrorView::InvalidColumnType(name),
        b.find(name) is Some && b.boolean_of(name) is Err ==> b.boolean_of(name)->Err_0
            == TraceErrorView::InvalidColumnType(name),
        b.find(name) is Some && b.utf8_of(name) is Err ==> b.utf8_of(name)->Err_0
            == TraceErrorView::InvalidColumnType(name),
{
}

/// The values that a column of 64-bit integers has.
pub open spec fn longs(b: &Batch, name: Seq<char>) -> Seq<i64> {
    b.find(name).unwrap()->Int64_0@
}

/// The values that a column of 32-bit integers has.
pub open spec fn ints(b: &Batch, name: Seq<char>) -> Seq<i32> {
    b.find(name).unwrap()->Int32_0@
}

/// Whether a batch has all columns that events are read from, of the right types.
pub open spec fn has_event_columns(b: &Batch) -> bool {
    &&& b.find("timestamp"@) matches Some(c) && c is Int64
    &&& b.find("pid"@) matches Some(c) && c is Int32
    &&& b.find("cpu_id"@) matches Some(c) && c is Int32
    &&& b.find("is_context_switch"@) matches Some(c) && c is Boolean
    &&& b.find("next_tgid"@) matches Some(c) && c is Int32
    &&& b.find("instructions"@) matches Some(c) && c is Int64
    &&& b.find("cycles"@) matches Some(c) && c is Int64
    &&& b.find("process_name"@) matches Some(c) && c is Utf8
}

/// Events are read exactly where all their columns are there, one of each row, and each event says
/// what the columns say in its row. A process that comes is named exactly where it is not null.
pub proof fn law_events_say_what_the_rows_say(b: &Batch, i: int)
    requires
        0 <= i < b.num_rows,
    ensures
        events_of(b) is Ok <==> has_event_columns(b),
        events_of(b) is Ok ==> events_of(b)->Ok_0.len() == b.num_rows,
        events_of(b) is Ok ==> {
            let e = events_of(b)->Ok_0[i];
            &&& longs(b, "timestamp"@)[i] >= 0 ==> e.timestamp == longs(b, "timestamp"@)[i]
            &&& ints(b, "pid"@)[i] >= 0 ==> e.pid == ints(b, "pid"@)[i]
            &&& ints(b, "cpu_id"@)[i] >= 0 ==> e.cpu_id == ints(b, "cpu_id"@)[i]
            &&& longs(b, "instructions"@)[i] >= 0 ==> e.instructions == longs(b, "instructions"@)[i]
            &&& longs(b, "cycles"@)[i] >= 0 ==> e.cycles == longs(b, "cycles"@)[i]
            &&& e.is_context_switch == b.find("is_context_switch"@).unwrap()->Boolean_0@[i]
            &&& e.process_name == b.find("process_name"@).unwrap()->Utf8_0@[i]@
            &&& e.next_tgid is None <==> b.find("next_tgid"@).unwrap()->Int32_1@[i]
            &&& e.next_tgid is Some && ints(b, "next_tgid"@)[i] >= 0 ==> e.next_tgid.unwrap()
                == ints(b, "next_tgid"@)[i]
        },
{
}

/// Cycles per instruction can be told exactly of an event that counted both.
pub proof fn law_cycles_per_instruction_need_both(e: EventView)
    ensures
        has_cpi(e) <==> e.instructions != 0 && e.cycles != 0,
{
}

// ---------------------------------------------------------------------------
// Breaks in time
// ---------------------------------------------------------------------------

/// A timestamp is reported exactly where it is less than the one before it, with the number of its
/// row, the two timestamps and their difference; the first of a trace never is.
pub proof fn law_a_step_back_is_reported(row: nat, last: i64, current: i64)
    ensures
        break_lines(row, Some(last), seq![current]) == if current < last {
            seq![
                seq![
                    dec(row),
                    "break_in_monotonicity"@,
                    dec_int(last as int),
                    dec_int(current as int),
                    dec_int(current - last),
                ],
            ]
        } else {
            Seq::empty()
        },
        break_lines(row, None, seq![current]) == Seq::<Seq<Seq<char>>>::empty(),
        break_lines(row, Some(last), Seq::empty()) == Seq::<Seq<Seq<char>>>::empty(),
        last_of(Some(last), seq![current]) == Some(current),
        last_of(None, Seq::empty()) is None,
{
    reveal_with_fuel(break_lines, 2);
    let one = seq![current];
    assert(one.drop_last() =~= Seq::<i64>::empty());
    assert(one.last() == current);
    if current < last {
        assert(break_lines(row, Some(last), one) =~= seq![
            seq![
                dec(row),
                "break_in_monotonicity"@,
                dec_int(last as int),
                dec_int(current as int),
                dec_int(current - last),
            ],
        ]);
    }
}

/// A batch is reported with the number of its first row and with the timestamps on both sides of the
/// cut, as far as there are any.
pub proof fn law_a_cut_is_reported(row: nat, last: i64, first: i64, more: Seq<i64>)
    ensures
        batch_line(row, Some(last), seq![first] + more) == seq![
            dec(row),
            "new_record_batch"@,
            dec_int(last as int),
            dec_int(first as int),
            ""@,
        ],
        batch_line(row, None, seq![first] + more)[2].len() == 0,
        batch_line(row, None, seq![first] + more)[3] == dec_int(first as int),
        batch_line(row, Some(last), Seq::empty())[2] == dec_int(last as int),
        batch_line(row, Some(last), Seq::empty())[3].len() == 0,
        batch_line(row, None, Seq::empty())[0] == dec(row),
{
    assert((seq![first] + more)[0] == first);
}

// ---------------------------------------------------------------------------
// Command line
// ---------------------------------------------------------------------------

/// The three analyses have their names, and no other text names one.
pub proof fn law_analyses_have_their_names(name: Seq<char>)
    ensures
        analysis_named(name) == Some(AnalysisType::Concurrency) <==> name == "concurrency"@,
        analysis_named(name) == Some(AnalysisType::Hyperthread) <==> name == "hyperthread"@,
        analysis_named(name) == Some(AnalysisType::Monotonicity) <==> name == "monotonicity"@,
{
    reveal_strlit("concurrency");
    reveal_strlit("hyperthread");
    reveal_strlit("monotonicity");
    assert("concurrency"@[0] == 'c' && "hyperthread"@[0] == 'h' && "monotonicity"@[0] == 'm');
}

/// An output lies beside the input wherever the input names a file. Its name is the prefix, or the
/// input's stem where there is none, an underscore and the ending.
pub proof fn law_outputs_lie_beside_the_input(
    input: Seq<char>,
    prefix: Option<Seq<char>>,
    ending: Seq<char>,
)
    ensures
        output_path(input, prefix, ending) is Some <==> file_stem_of(input) is Some,
        prefix is Some && output_path(input, prefix, ending) is Some ==> output_path(
            input,
            prefix,
            ending,
        ).unwrap() == match parent_of(input) {
            Some(dir) => joined(dir, prefix.unwrap() + "_"@ + ending),
            None => prefix.unwrap() + "_"@ + ending,
        },
        file_stem_of(input) matches Some(stem) ==> output_path(input, None, ending) == output_path(
            input,
            Some(stem),
            ending,
        ),
{
}

/// Whether a place holds the first entry of a key.
pub open spec fn is_first_entry(entries: Seq<KeyValue>, key: Seq<char>, i: int) -> bool {
    &&& 0 <= i < entries.len()
    &&& entries[i].key@ == key
    &&& forall|j: int| 0 <= j < i ==> (#[trigger] entries[j]).key@ != key
}

proof fn lemma_first_entry(entries: Seq<KeyValue>, key: Seq<char>, i: int)
    requires
        is_first_entry(entries, key, i),
    ensures
        entry_of(entries, key) == Some(entries[i]),
    decreases entries.len(),
{
    if i > 0 {
        assert(entries[0].key@ != key);
        let rest = entries.drop_first();
        assert forall|j: int| 0 <= j < i - 1 implies (#[trigger] rest[j]).key@ != key by {
            assert(rest[j] == entries[j + 1]);
        }
        lemma_first_entry(rest, key, i - 1);
    }
}

proof fn lemma_no_entry(entries: Seq<KeyValue>, key: Seq<char>)
    requires
        forall|j: int| 0 <= j < entries.len() ==> (#[trigger] entries[j]).key@ != key,
    ensures
        entry_of(entries, key) is None,
    decreases entries.len(),
{
    if entries.len() > 0 {
        assert(entries[0].key@ != key);
        let rest = entries.drop_first();
        assert forall|j: int| 0 <= j < rest.len() implies (#[trigger] rest[j]).key@ != key by {
            assert(rest[j] == entries[j + 1]);
        }
        lemma_no_entry(rest, key);
    }
}

/// The number of CPUs is the number that the first entry of that name holds, and each way in which
/// there is none is told apart.
pub proof fn law_number_of_cpus_is_that_of_the_first_entry(entries: Seq<KeyValue>, i: int)
    ensures
        is_first_entry(entries, "num_cpus"@, i) ==> num_cpus_in(Some(entries)) == match entries[i].value {
            Some(text) => match parse_usize_of(text@) {
                Ok(n) => Ok::<int, CommandErrorView>(n),
                Err(e) => Err(CommandErrorView::InvalidNumCpus(e)),
            },
            None => Err(CommandErrorView::EmptyNumCpus),
        },
        (forall|j: int| 0 <= j < entries.len() ==> (#[trigger] entries[j]).key@ != "num_cpus"@)
            ==> num_cpus_in(Some(entries)) == Err::<int, CommandErrorView>(
            CommandErrorView::NoNumCpus,
        ),
        num_cpus_in(None) == Err::<int, CommandErrorView>(CommandErrorView::NoMetadata),
{
    if is_first_entry(entries, "num_cpus"@, i) {
        lemma_first_entry(entries, "num_cpus"@, i);
    }
    if forall|j: int| 0 <= j < entries.len() ==> (#[trigger] entries[j]).key@ != "num_cpus"@ {
        lemma_no_entry(entries, "num_cpus"@);
    }
}

}
