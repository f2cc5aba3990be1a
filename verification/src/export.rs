//! The grouped export transform: a stream of rows becomes one output line
//! per run of equal timestamps, each line carrying a one-based line counter,
//! the timestamp, its calendar rendering, and the comma-joined values of the
//! run, terminated by CRLF. The final run is flushed like every other.

use vstd::prelude::*;

use crate::datetime::{date_time_seq, push_date_time};
use crate::digits::{dec_seq, push_decimal};
use crate::ExportError;

verus! {

/// One database row, with the logged value already rendered as text.
pub struct Row {
    pub id: u64,
    pub timestamp: u64,
    pub tag: String,
    pub description: String,
    pub value: String,
}

/// One run of rows sharing a timestamp, in input order.
pub struct Group {
    pub timestamp: u64,
    pub values: Vec<String>,
}

impl View for Group {
    type V = (u64, Seq<Seq<char>>);

    open spec fn view(&self) -> (u64, Seq<Seq<char>>) {
        (self.timestamp, self.values@.map_values(|v: String| v@))
    }
}

/// The runs of equal timestamps in a row stream: a new group starts at every
/// row whose timestamp differs from its predecessor's.
pub open spec fn spec_groups(rows: Seq<Row>) -> Seq<(u64, Seq<Seq<char>>)>
    decreases rows.len(),
{
    if rows.len() == 0 {
        Seq::empty()
    } else {
        let init = spec_groups(rows.drop_last());
        let r = rows.last();
        if rows.len() >= 2 && rows[rows.len() - 2].timestamp == r.timestamp {
            init.update(init.len() - 1, (r.timestamp, init.last().1.push(r.value@)))
        } else {
            init.push((r.timestamp, seq![r.value@]))
        }
    }
}

/// Every group is nonempty, there are at most as many groups as rows, and
/// the last group carries the last row's timestamp.
pub proof fn lemma_groups_shape(rows: Seq<Row>)
    requires
        rows.len() > 0,
    ensures
        1 <= spec_groups(rows).len() <= rows.len(),
        spec_groups(rows).last().0 == rows.last().timestamp,
        forall|i: int|
            0 <= i < spec_groups(rows).len() ==> (#[trigger] spec_groups(rows)[i]).1.len() >= 1,
    decreases rows.len(),
{
    if rows.len() == 1 {
        reveal_with_fuel(spec_groups, 2);
        assert(spec_groups(rows) =~= seq![(rows.last().timestamp, seq![rows.last().value@])]);
    } else {
        lemma_groups_shape(rows.drop_last());
        let init = spec_groups(rows.drop_last());
        let r = rows.last();
        if rows[rows.len() - 2].timestamp == r.timestamp {
            assert(spec_groups(rows) == init.update(
                init.len() - 1,
                (r.timestamp, init.last().1.push(r.value@)),
            ));
            assert(spec_groups(rows).last().0 == r.timestamp);
        } else {
            assert(spec_groups(rows) == init.push((r.timestamp, seq![r.value@])));
        }
    }
}

/// Splits the row stream into its runs of equal timestamps.
pub fn group_rows(rows: &Vec<Row>) -> (groups: Vec<Group>)
    ensures
        groups@.map_values(|g: Group| g@) == spec_groups(rows@),
{
    let mut groups: Vec<Group> = Vec::new();
    let mut i: usize = 0;
    while i < rows.len()
        invariant
            i <= rows@.len(),
            groups@.map_values(|g: Group| g@) == spec_groups(rows@.take(i as int)),
            groups@.len() > 0 <==> i > 0,
            i > 0 ==> groups@.len() > 0 && groups@.last().timestamp == rows@[i - 1].timestamp,
        decreases rows@.len() - i,
    {
        let ghost prefix = rows@.take(i as int);
        let ghost next_prefix = rows@.take(i as int + 1);
        proof {
            assert(next_prefix.drop_last() =~= prefix);
            assert(next_prefix.last() == rows@[i as int]);
        }
        let ghost gs = spec_groups(prefix);
        let ts = rows[i].timestamp;
        let v = rows[i].value.clone();
        let n = groups.len();
        if n > 0 && groups[n - 1].timestamp == ts {
            let mut g = match groups.pop() {
                Some(g) => g,
                None => unreached(),
            };
            proof {
                assert(g@ == gs.last());
            }
            g.values.push(v);
            proof {
                assert(g.values@.map_values(|v2: String| v2@) =~= gs.last().1.push(
                    rows@[i as int].value@,
                ));
            }
            groups.push(g);
            proof {
                assert(next_prefix[next_prefix.len() - 2].timestamp == ts);
                assert(spec_groups(next_prefix) == gs.update(
                    gs.len() - 1,
                    (ts, gs.last().1.push(rows@[i as int].value@)),
                ));
                assert(groups@.map_values(|g2: Group| g2@) =~~= spec_groups(next_prefix));
            }
        } else {
            let mut values: Vec<String> = Vec::new();
            values.push(v);
            groups.push(Group { timestamp: ts, values });
            proof {
                if i > 0 {
                    assert(next_prefix[next_prefix.len() - 2].timestamp != ts);
                }
                assert(groups@.last()@.1 =~= seq![rows@[i as int].value@]);
                assert(groups@.map_values(|g: Group| g@) =~= spec_groups(next_prefix));
            }
        }
        i = i + 1;
    }
    proof {
        assert(rows@.take(rows@.len() as int) =~= rows@);
    }
    groups
}

/// The stream's timestamps never decrease.
pub open spec fn sorted_by_timestamp(rows: Seq<Row>) -> bool {
    forall|i: int, j: int|
        0 <= i <= j < rows.len() ==> (#[trigger] rows[i]).timestamp <= (#[trigger] rows[j]).timestamp
}

/// The values of all rows carrying timestamp `ts`, in input order.
pub open spec fn values_with_timestamp(rows: Seq<Row>, ts: u64) -> Seq<Seq<char>> {
    rows.filter(|r: Row| r.timestamp == ts).map_values(|r: Row| r.value@)
}

/// Some group carries timestamp `ts`.
pub open spec fn has_group_for(rows: Seq<Row>, ts: u64) -> bool {
    exists|i: int|
        0 <= i < spec_groups(rows).len() && (#[trigger] spec_groups(rows)[i]).0 == ts
}

proof fn lemma_filter_none(rows: Seq<Row>, pred: spec_fn(Row) -> bool)
    requires
        forall|i: int| 0 <= i < rows.len() ==> !pred(#[trigger] rows[i]),
    ensures
        rows.filter(pred) == Seq::<Row>::empty(),
    decreases rows.len(),
{
    reveal_with_fuel(Seq::<Row>::filter, 1);
    if rows.len() > 0 {
        assert(forall|i: int|
            0 <= i < rows.drop_last().len() ==> !pred(#[trigger] rows.drop_last()[i]));
        lemma_filter_none(rows.drop_last(), pred);
    }
}

/// For a row stream already sorted by timestamp, grouping yields exactly one
/// line per distinct timestamp value: the group timestamps are strictly
/// increasing, every row's timestamp is some group's, and each group holds
/// precisely the values of the rows carrying its timestamp, in input order.
pub proof fn lemma_sorted_grouping(rows: Seq<Row>)
    requires
        sorted_by_timestamp(rows),
    ensures
        forall|i: int, j: int|
            0 <= i < j < spec_groups(rows).len() ==> (#[trigger] spec_groups(rows)[i]).0 < (
            #[trigger] spec_groups(rows)[j]).0,
        forall|k: int| 0 <= k < rows.len() ==> has_group_for(rows, (#[trigger] rows[k]).timestamp),
        forall|i: int|
            0 <= i < spec_groups(rows).len() ==> (#[trigger] spec_groups(rows)[i]).1
                == values_with_timestamp(rows, spec_groups(rows)[i].0),
    decreases rows.len(),
{
    reveal_with_fuel(Seq::<Row>::filter, 2);
    if rows.len() == 0 {
    } else {
        let rs = rows.drop_last();
        let r = rows.last();
        let gs = spec_groups(rs);
        let g = spec_groups(rows);
        assert(sorted_by_timestamp(rs)) by {
            assert(forall|i: int| 0 <= i < rs.len() ==> #[trigger] rs[i] == rows[i]);
        }
        lemma_sorted_grouping(rs);
        if rows.len() == 1 {
            reveal_with_fuel(spec_groups, 2);
            assert(g =~= seq![(r.timestamp, seq![r.value@])]);
            assert(rs.filter(|x: Row| x.timestamp == r.timestamp) =~= Seq::<Row>::empty());
            assert(values_with_timestamp(rows, r.timestamp) =~= seq![r.value@]);
            assert(g[0].0 == r.timestamp && rows[0] == r);
            assert(forall|k: int|
                0 <= k < rows.len() ==> has_group_for(rows, (#[trigger] rows[k]).timestamp));
        } else {
            lemma_groups_shape(rs);
            assert(gs.last().0 == rs.last().timestamp);
            // every earlier group's timestamp is at most the last one's
            assert(forall|i: int| 0 <= i < gs.len() ==> (#[trigger] gs[i]).0 <= gs.last().0);
            if rs.last().timestamp == r.timestamp {
                assert(g == gs.update(gs.len() - 1, (r.timestamp, gs.last().1.push(r.value@))));
                // the group timestamps are unchanged
                assert(forall|i: int| 0 <= i < g.len() ==> (#[trigger] g[i]).0 == gs[i].0);
                // strictly increasing carries over
                assert(forall|i: int, j: int|
                    0 <= i < j < g.len() ==> (#[trigger] g[i]).0 < (#[trigger] g[j]).0);
                // every row's timestamp still has its group
                assert forall|k: int|
                    0 <= k < rows.len() implies has_group_for(
                    rows,
                    (#[trigger] rows[k]).timestamp,
                ) by {
                    if k < rows.len() - 1 {
                        assert(rows[k] == rs[k]);
                        assert(has_group_for(rs, rs[k].timestamp));
                        let i = choose|i: int|
                            0 <= i < gs.len() && (#[trigger] gs[i]).0 == rs[k].timestamp;
                        assert(g[i].0 == rows[k].timestamp);
                    } else {
                        assert(g[g.len() - 1].0 == r.timestamp);
                    }
                }
                // group values: only the last group gains the new row's value
                assert forall|i: int|
                    0 <= i < g.len() implies (#[trigger] g[i]).1 == values_with_timestamp(
                    rows,
                    g[i].0,
                ) by {
                    let pred = |x: Row| x.timestamp == g[i].0;
                    if i < g.len() - 1 {
                        assert(gs[i].0 < gs.last().0);
                        assert(!pred(r));
                        assert(rows.filter(pred) == rs.filter(pred));
                        assert(g[i].1 == values_with_timestamp(rs, gs[i].0));
                    } else {
                        assert(pred(r));
                        assert(rows.filter(pred) == rs.filter(pred).push(r));
                        assert(gs.last().1 == values_with_timestamp(rs, gs.last().0));
                        assert(g[i].1 =~= values_with_timestamp(rows, g[i].0));
                    }
                }
            } else {
                assert(rs.last().timestamp < r.timestamp);
                assert(g == gs.push((r.timestamp, seq![r.value@])));
                assert(forall|i: int| 0 <= i < gs.len() ==> (#[trigger] g[i]).0 == gs[i].0);
                assert(forall|i: int| 0 <= i < gs.len() ==> (#[trigger] gs[i]).0 < r.timestamp);
                assert(forall|i: int, j: int|
                    0 <= i < j < g.len() ==> (#[trigger] g[i]).0 < (#[trigger] g[j]).0);
                assert forall|k: int|
                    0 <= k < rows.len() implies has_group_for(
                    rows,
                    (#[trigger] rows[k]).timestamp,
                ) by {
                    if k < rows.len() - 1 {
                        assert(rows[k] == rs[k]);
                        assert(has_group_for(rs, rs[k].timestamp));
                        let i = choose|i: int|
                            0 <= i < gs.len() && (#[trigger] gs[i]).0 == rs[k].timestamp;
                        assert(g[i].0 == rows[k].timestamp);
                    } else {
                        assert(g[g.len() - 1].0 == r.timestamp);
                    }
                }
                assert forall|i: int|
                    0 <= i < g.len() implies (#[trigger] g[i]).1 == values_with_timestamp(
                    rows,
                    g[i].0,
                ) by {
                    let pred = |x: Row| x.timestamp == g[i].0;
                    if i < g.len() - 1 {
                        assert(gs[i].0 < r.timestamp);
                        assert(!pred(r));
                        assert(rows.filter(pred) == rs.filter(pred));
                        assert(g[i].1 == values_with_timestamp(rs, gs[i].0));
                    } else {
                        assert(pred(r));
                        // no earlier row carries the new timestamp
                        assert(forall|k: int| 0 <= k < rs.len() ==> !pred(#[trigger] rs[k])) by {
                            assert(forall|k: int|
                                0 <= k < rs.len() ==> (#[trigger] rs[k]).timestamp
                                    <= rs.last().timestamp);
                        }
                        lemma_filter_none(rs, pred);
                        assert(rows.filter(pred) == rs.filter(pred).push(r));
                        assert(g[i].1 =~= values_with_timestamp(rows, g[i].0));
                    }
                }
            }
        }
    }
}

/// The values of a group joined by single commas, in order.
pub open spec fn join_commas(vals: Seq<Seq<char>>) -> Seq<char>
    decreases vals.len(),
{
    if vals.len() == 0 {
        Seq::empty()
    } else if vals.len() == 1 {
        vals[0]
    } else {
        join_commas(vals.drop_last()) + seq![','] + vals.last()
    }
}

/// One output line: `counter,timestamp,DD/MM/YY,HH:MM:SS,value[,value...]`
/// terminated by CRLF.
pub open spec fn render_line(n: int, ts: int, vals: Seq<Seq<char>>) -> Seq<char> {
    dec_seq(n) + seq![','] + dec_seq(ts) + seq![','] + date_time_seq(ts) + seq![','] + join_commas(
        vals,
    ) + seq!['\r', '\n']
}

/// Renders one group as the `n`-th output line.
pub fn render_group(n: u64, g: &Group) -> (line: String)
    requires
        g.values@.len() >= 1,
    ensures
        line@ == render_line(n as int, g.timestamp as int, g@.1),
{
    let mut line = String::new();
    push_decimal(&mut line, n);
    line.append(",");
    push_decimal(&mut line, g.timestamp);
    line.append(",");
    push_date_time(&mut line, g.timestamp);
    line.append(",");
    line.append(g.values[0].as_str());
    proof {
        reveal_strlit(",");
        assert(g@.1.take(1) =~= seq![g@.1[0]]);
    }
    let ghost head = dec_seq(n as int) + seq![','] + dec_seq(g.timestamp as int) + seq![',']
        + date_time_seq(g.timestamp as int) + seq![','];
    assert(line@ =~= head + join_commas(g@.1.take(1)));
    let mut j: usize = 1;
    while j < g.values.len()
        invariant
            1 <= j <= g.values@.len(),
            g.values@.len() == g@.1.len(),
            line@ == head + join_commas(g@.1.take(j as int)),
        decreases g.values@.len() - j,
    {
        line.append(",");
        line.append(g.values[j].as_str());
        proof {
            reveal_strlit(",");
            assert(g@.1.take(j as int + 1).drop_last() =~= g@.1.take(j as int));
            assert(g@.1.take(j as int + 1).last() == g@.1[j as int]);
            assert(line@ =~= head + join_commas(g@.1.take(j as int + 1)));
        }
        j = j + 1;
    }
    line.append("\r\n");
    proof {
        reveal_strlit("\r\n");
        assert(g@.1.take(g@.1.len() as int) =~= g@.1);
        assert(line@ =~= render_line(n as int, g.timestamp as int, g@.1));
    }
    line
}

/// The whole export: the rendered line of each group, in order, with
/// one-based line counters.
pub open spec fn spec_lines(rows: Seq<Row>) -> Seq<Seq<char>> {
    Seq::new(
        spec_groups(rows).len(),
        |i: int| render_line(i + 1, spec_groups(rows)[i].0 as int, spec_groups(rows)[i].1),
    )
}

/// Turns a row stream into the grouped output lines. An empty stream yields
/// no lines; otherwise there is one line per run of equal timestamps.
pub fn export_lines(rows: &Vec<Row>) -> (lines: Vec<String>)
    ensures
        lines@.map_values(|l: String| l@) == spec_lines(rows@),
        lines@.len() == spec_groups(rows@).len(),
        rows@.len() == 0 ==> lines@.len() == 0,
        rows@.len() > 0 ==> lines@.len() >= 1,
{
    let groups = group_rows(rows);
    proof {
        if rows@.len() > 0 {
            lemma_groups_shape(rows@);
        }
    }
    let mut lines: Vec<String> = Vec::new();
    let mut k: usize = 0;
    while k < groups.len()
        invariant
            k <= groups@.len(),
            groups@.map_values(|g: Group| g@) == spec_groups(rows@),
            forall|i: int|
                0 <= i < spec_groups(rows@).len() ==> (#[trigger] spec_groups(rows@)[i]).1.len()
                    >= 1,
            lines@.len() == k,
            forall|idx: int| 0 <= idx < k ==> (#[trigger] lines@[idx])@ == spec_lines(rows@)[idx],
        decreases groups@.len() - k,
    {
        proof {
            assert(groups@[k as int]@ == spec_groups(rows@)[k as int]);
        }
        let line = render_group((k as u64) + 1, &groups[k]);
        proof {
            assert(line@ == spec_lines(rows@)[k as int]);
        }
        lines.push(line);
        k = k + 1;
    }
    proof {
        let m = lines@.map_values(|l: String| l@);
        assert forall|idx: int| 0 <= idx < m.len() implies m[idx] == spec_lines(rows@)[idx] by {
            assert(lines@[idx]@ == spec_lines(rows@)[idx]);
        }
        assert(m =~= spec_lines(rows@));
    }
    lines
}

/// The status string shown for an export outcome: the flushed line count on
/// success, or the message of the one error that stopped the export.
pub open spec fn error_message_seq(e: ExportError) -> Seq<char> {
    match e {
        ExportError::DateParse => "Could not read the time and date values."@,
        ExportError::Connection => "Could not open the database."@,
        ExportError::QueryPrepare => "Could not prepare the database query."@,
        ExportError::RowRead => "Error reading database rows."@,
        ExportError::FileOpen => "Could not open or create file."@,
        ExportError::FileWrite => "Could not write to file."@,
    }
}

/// Renders the user-visible status string for an export outcome.
pub fn status_message(outcome: &Result<u64, ExportError>) -> (r: String)
    ensures
        outcome is Ok ==> r@ == dec_seq(outcome->Ok_0 as int) + " rows extracted."@,
        outcome is Err ==> r@ == error_message_seq(outcome->Err_0),
{
    match outcome {
        Ok(count) => {
            let mut s = String::new();
            push_decimal(&mut s, *count);
            s.append(" rows extracted.");
            s
        },
        Err(ExportError::DateParse) => String::from_str(
            "Could not read the time and date values.",
        ),
        Err(ExportError::Connection) => String::from_str("Could not open the database."),
        Err(ExportError::QueryPrepare) => String::from_str("Could not prepare the database query."),
        Err(ExportError::RowRead) => String::from_str("Error reading database rows."),
        Err(ExportError::FileOpen) => String::from_str("Could not open or create file."),
        Err(ExportError::FileWrite) => String::from_str("Could not write to file."),
    }
}

} // verus!
