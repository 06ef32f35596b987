//! What the claims of the tests demand of the facts they are about, claim by claim.
use vstd::prelude::*;
use crate::check::Truth;
use crate::claims::{
    claims_of_equality_hold_where_facts_are_equal, claims_of_size_are_of_numbers, operand, ruling_on, wanted,
    Seen,
};
use crate::stages::s24_range_over_ranges as s24;
use crate::stages::s25_range_options as s25;
use crate::stages::s26_mvcc_past_revisions as s26;
use crate::stages::s31_leases as s31;
use crate::stages::s32_lease_keepalive as s32;
use crate::stages::s36_cluster_forms as s36;
use crate::stages::s37_replicated_writes as s37;
use crate::stages::s41_majority_keeps_serving as s41;
use crate::stages::s43_leader_election as s43;
use crate::stages::s44_no_acknowledged_write_lost as s44;
use crate::stages::s49_member_remove as s49;
use crate::stages::s50_whole_cluster_restart as s50;
use crate::stages::s51_clock_skew as s51;
use crate::stages::s52_lossy_link as s52;
use crate::stages::s53_duplicate_and_reorder as s53;
use crate::text::{decimal_reads_back, int_text, nat_text, whole_number};

verus! {

/// The numbers that claims name.
pub proof fn numerals_read_as_numbers()
    ensures
        whole_number("0"@) == Some(0i64),
        whole_number("1"@) == Some(1i64),
        whole_number("2"@) == Some(2i64),
        whole_number("3"@) == Some(3i64),
        whole_number("4"@) == Some(4i64),
        whole_number("5"@) == Some(5i64),
        whole_number("6"@) == Some(6i64),
        whole_number("8"@) == Some(8i64),
        whole_number("9"@) == Some(9i64),
        whole_number("10"@) == Some(10i64),
        whole_number("12"@) == Some(12i64),
        whole_number("20"@) == Some(20i64),
        whole_number("30"@) == Some(30i64),
        whole_number("40"@) == Some(40i64),
        whole_number("100"@) == Some(100i64),
        whole_number("2000"@) == Some(2000i64),
        whole_number("4000"@) == Some(4000i64),
        whole_number("20000"@) == Some(20000i64),
        whole_number("6543210"@) == Some(6543210i64),
{
    assert(whole_number("0"@) == Some(0i64)) by {
        reveal_strlit("0");
        reveal_with_fuel(nat_text, 2);
        assert(int_text(0) =~= "0"@);
        decimal_reads_back(0);
    }
    assert(whole_number("1"@) == Some(1i64)) by {
        reveal_strlit("1");
        reveal_with_fuel(nat_text, 2);
        assert(int_text(1) =~= "1"@);
        decimal_reads_back(1);
    }
    assert(whole_number("2"@) == Some(2i64)) by {
        reveal_strlit("2");
        reveal_with_fuel(nat_text, 2);
        assert(int_text(2) =~= "2"@);
        decimal_reads_back(2);
    }
    assert(whole_number("3"@) == Some(3i64)) by {
        reveal_strlit("3");
        reveal_with_fuel(nat_text, 2);
        assert(int_text(3) =~= "3"@);
        decimal_reads_back(3);
    }
    assert(whole_number("4"@) == Some(4i64)) by {
        reveal_strlit("4");
        reveal_with_fuel(nat_text, 2);
        assert(int_text(4) =~= "4"@);
        decimal_reads_back(4);
    }
    assert(whole_number("5"@) == Some(5i64)) by {
        reveal_strlit("5");
        reveal_with_fuel(nat_text, 2);
        assert(int_text(5) =~= "5"@);
        decimal_reads_back(5);
    }
    assert(whole_number("6"@) == Some(6i64)) by {
        reveal_strlit("6");
        reveal_with_fuel(nat_text, 2);
        assert(int_text(6) =~= "6"@);
        decimal_reads_back(6);
    }
    assert(whole_number("8"@) == Some(8i64)) by {
        reveal_strlit("8");
        reveal_with_fuel(nat_text, 2);
        assert(int_text(8) =~= "8"@);
        decimal_reads_back(8);
    }
    assert(whole_number("9"@) == Some(9i64)) by {
        reveal_strlit("9");
        reveal_with_fuel(nat_text, 2);
        assert(int_text(9) =~= "9"@);
        decimal_reads_back(9);
    }
    assert(whole_number("10"@) == Some(10i64)) by {
        reveal_strlit("10");
        reveal_with_fuel(nat_text, 3);
        assert(int_text(10) =~= "10"@);
        decimal_reads_back(10);
    }
    assert(whole_number("12"@) == Some(12i64)) by {
        reveal_strlit("12");
        reveal_with_fuel(nat_text, 3);
        assert(int_text(12) =~= "12"@);
        decimal_reads_back(12);
    }
    assert(whole_number("20"@) == Some(20i64)) by {
        reveal_strlit("20");
        reveal_with_fuel(nat_text, 3);
        assert(int_text(20) =~= "20"@);
        decimal_reads_back(20);
    }
    assert(whole_number("30"@) == Some(30i64)) by {
        reveal_strlit("30");
        reveal_with_fuel(nat_text, 3);
        assert(int_text(30) =~= "30"@);
        decimal_reads_back(30);
    }
    assert(whole_number("40"@) == Some(40i64)) by {
        reveal_strlit("40");
        reveal_with_fuel(nat_text, 3);
        assert(int_text(40) =~= "40"@);
        decimal_reads_back(40);
    }
    assert(whole_number("100"@) == Some(100i64)) by {
        reveal_strlit("100");
        reveal_with_fuel(nat_text, 4);
        assert(int_text(100) =~= "100"@);
        decimal_reads_back(100);
    }
    assert(whole_number("2000"@) == Some(2000i64)) by {
        reveal_strlit("2000");
        reveal_with_fuel(nat_text, 5);
        assert(int_text(2000) =~= "2000"@);
        decimal_reads_back(2000);
    }
    assert(whole_number("4000"@) == Some(4000i64)) by {
        reveal_strlit("4000");
        reveal_with_fuel(nat_text, 5);
        assert(int_text(4000) =~= "4000"@);
        decimal_reads_back(4000);
    }
    assert(whole_number("20000"@) == Some(20000i64)) by {
        reveal_strlit("20000");
        reveal_with_fuel(nat_text, 6);
        assert(int_text(20000) =~= "20000"@);
        decimal_reads_back(20000);
    }
    assert(whole_number("6543210"@) == Some(6543210i64)) by {
        reveal_strlit("6543210");
        reveal_with_fuel(nat_text, 8);
        assert(int_text(6543210) =~= "6543210"@);
        decimal_reads_back(6543210);
    }
}

/// What `RANGE_END_IS_EXCLUDED` demands, claim by claim.
pub proof fn range_end_is_excluded_demands(row: Seen, all: Seen, path: Seq<char>)
    ensures
        s24::RANGE_END_IS_EXCLUDED.1@[0].0@ == ""@,
        ruling_on(row, all, s24::RANGE_END_IS_EXCLUDED.1@[0], path) matches Some(r) ==> (r.holds()
            <==> operand(row, all, "keys"@) == wanted(row, all, "[{ns}r/a\n{ns}r/b"@)),
        s24::RANGE_END_IS_EXCLUDED.1@[1].0@ == ""@,
        ruling_on(row, all, s24::RANGE_END_IS_EXCLUDED.1@[1], path) matches Some(r) ==> (r.holds()
            <==> operand(row, all, "count"@) == Some(Truth::Int(2))),
{
    numerals_read_as_numbers();
    claims_of_equality_hold_where_facts_are_equal(row, all, s24::RANGE_END_IS_EXCLUDED.1@[0], path);
    claims_of_equality_hold_where_facts_are_equal(row, all, s24::RANGE_END_IS_EXCLUDED.1@[1], path);
}

/// What `A_PREFIX_RANGE` demands, claim by claim.
pub proof fn a_prefix_range_demands(row: Seen, all: Seen, path: Seq<char>)
    ensures
        s24::A_PREFIX_RANGE.1@[0].0@ == ""@,
        ruling_on(row, all, s24::A_PREFIX_RANGE.1@[0], path) matches Some(r) ==> (r.holds()
            <==> operand(row, all, "keys"@) == wanted(
            row,
            all,
            "[{ns}p/a\n{ns}p/b\n{ns}p/b/deeper"@,
        )),
        s24::A_PREFIX_RANGE.1@[1].0@ == ""@,
        ruling_on(row, all, s24::A_PREFIX_RANGE.1@[1], path) matches Some(r) ==> (r.holds()
            <==> operand(row, all, "count"@) == Some(Truth::Int(3))),
{
    numerals_read_as_numbers();
    claims_of_equality_hold_where_facts_are_equal(row, all, s24::A_PREFIX_RANGE.1@[0], path);
    claims_of_equality_hold_where_facts_are_equal(row, all, s24::A_PREFIX_RANGE.1@[1], path);
}

/// What `A_PREFIX_STOPS_AT_ITS_BOUNDARY` demands, claim by claim.
pub proof fn a_prefix_stops_at_its_boundary_demands(row: Seen, all: Seen, path: Seq<char>)
    ensures
        s24::A_PREFIX_STOPS_AT_ITS_BOUNDARY.1@[0].0@ == ""@,
        ruling_on(row, all, s24::A_PREFIX_STOPS_AT_ITS_BOUNDARY.1@[0], path) matches Some(r) ==> (r.holds()
            <==> operand(row, all, "keys"@) == wanted(row, all, "[{ns}b/a"@)),
        s24::A_PREFIX_STOPS_AT_ITS_BOUNDARY.1@[1].0@ == ""@,
        ruling_on(row, all, s24::A_PREFIX_STOPS_AT_ITS_BOUNDARY.1@[1], path) matches Some(r) ==> (r.holds()
            <==> operand(row, all, "count"@) == Some(Truth::Int(1))),
{
    numerals_read_as_numbers();
    claims_of_equality_hold_where_facts_are_equal(row, all, s24::A_PREFIX_STOPS_AT_ITS_BOUNDARY.1@[0], path);
    claims_of_equality_hold_where_facts_are_equal(row, all, s24::A_PREFIX_STOPS_AT_ITS_BOUNDARY.1@[1], path);
}

/// What `THE_WHOLE_STORE` demands, claim by claim.
pub proof fn the_whole_store_demands(row: Seen, all: Seen, path: Seq<char>)
    ensures
        s24::THE_WHOLE_STORE.1@[0].0@ == ""@,
        ruling_on(row, all, s24::THE_WHOLE_STORE.1@[0], path) matches Some(r) ==> (r.holds()
            <==> operand(row, all, "keys"@) == wanted(row, all, "[{ns}a\n{ns}m/deep/er\n{ns}z"@)),
        s24::THE_WHOLE_STORE.1@[1].0@ == ""@,
        ruling_on(row, all, s24::THE_WHOLE_STORE.1@[1], path) matches Some(r) ==> (r.holds()
            <==> operand(row, all, "count"@) == Some(Truth::Int(3))),
{
    numerals_read_as_numbers();
    claims_of_equality_hold_where_facts_are_equal(row, all, s24::THE_WHOLE_STORE.1@[0], path);
    claims_of_equality_hold_where_facts_are_equal(row, all, s24::THE_WHOLE_STORE.1@[1], path);
}

/// What `BYTE_ORDER_NOT_STRING_ORDER` demands, claim by claim.
pub proof fn byte_order_not_string_order_demands(row: Seen, all: Seen, path: Seq<char>)
    ensures
        s24::BYTE_ORDER_NOT_STRING_ORDER.1@[0].0@ == ""@,
        s24::BYTE_ORDER_NOT_STRING_ORDER.1@[0].1@ == "? keys = sorted"@,
        s24::BYTE_ORDER_NOT_STRING_ORDER.1@[0].2@ == "keys"@,
        s24::BYTE_ORDER_NOT_STRING_ORDER.1@[1].0@ == ""@,
        ruling_on(row, all, s24::BYTE_ORDER_NOT_STRING_ORDER.1@[1], path) matches Some(r) ==> (r.holds()
            <==> operand(row, all, "count"@) == Some(Truth::Int(6))),
{
    numerals_read_as_numbers();
    claims_of_equality_hold_where_facts_are_equal(row, all, s24::BYTE_ORDER_NOT_STRING_ORDER.1@[1], path);
}

/// What `AN_EMPTY_RANGE` demands, claim by claim.
pub proof fn an_empty_range_demands(row: Seen, all: Seen, path: Seq<char>)
    ensures
        s24::AN_EMPTY_RANGE.1@[0].0@ == ""@,
        ruling_on(row, all, s24::AN_EMPTY_RANGE.1@[0], path) matches Some(r) ==> (r.holds()
            <==> operand(row, all, "len"@) == Some(Truth::Int(0))),
        s24::AN_EMPTY_RANGE.1@[1].0@ == ""@,
        ruling_on(row, all, s24::AN_EMPTY_RANGE.1@[1], path) matches Some(r) ==> (r.holds()
            <==> operand(row, all, "count"@) == Some(Truth::Int(0))),
        s24::AN_EMPTY_RANGE.1@[2].0@ == ""@,
        s24::AN_EMPTY_RANGE.1@[2].1@ == "? !more"@,
        s24::AN_EMPTY_RANGE.1@[2].2@ == "more"@,
        s24::AN_EMPTY_RANGE.1@[3].0@ == ""@,
        ruling_on(row, all, s24::AN_EMPTY_RANGE.1@[3], path) matches Some(r) ==> (r.holds()
            <==> (operand(row, all, "revision"@) matches Some(Truth::Int(got)) && got >= 1)),
{
    numerals_read_as_numbers();
    claims_of_equality_hold_where_facts_are_equal(row, all, s24::AN_EMPTY_RANGE.1@[0], path);
    claims_of_equality_hold_where_facts_are_equal(row, all, s24::AN_EMPTY_RANGE.1@[1], path);
    claims_of_size_are_of_numbers(row, all, s24::AN_EMPTY_RANGE.1@[3], path);
}

/// What `END_BEFORE_START` demands, claim by claim.
pub proof fn end_before_start_demands(row: Seen, all: Seen, path: Seq<char>)
    ensures
        s24::END_BEFORE_START.1@[0].0@ == ""@,
        ruling_on(row, all, s24::END_BEFORE_START.1@[0], path) matches Some(r) ==> (r.holds()
            <==> operand(row, all, "len"@) == Some(Truth::Int(0))),
        s24::END_BEFORE_START.1@[1].0@ == ""@,
        ruling_on(row, all, s24::END_BEFORE_START.1@[1], path) matches Some(r) ==> (r.holds()
            <==> operand(row, all, "count"@) == Some(Truth::Int(0))),
        s24::END_BEFORE_START.1@[2].0@ == ""@,
        ruling_on(row, all, s24::END_BEFORE_START.1@[2], path) matches Some(r) ==> (r.holds()
            <==> (operand(row, all, "revision"@) matches Some(Truth::Int(got)) && got >= 1)),
{
    numerals_read_as_numbers();
    claims_of_equality_hold_where_facts_are_equal(row, all, s24::END_BEFORE_START.1@[0], path);
    claims_of_equality_hold_where_facts_are_equal(row, all, s24::END_BEFORE_START.1@[1], path);
    claims_of_size_are_of_numbers(row, all, s24::END_BEFORE_START.1@[2], path);
}

/// What `SCRAMBLED_WRITES_SORT` demands, claim by claim.
pub proof fn scrambled_writes_sort_demands(row: Seen, all: Seen, path: Seq<char>)
    ensures
        s24::SCRAMBLED_WRITES_SORT.1@[0].0@ == ""@,
        ruling_on(row, all, s24::SCRAMBLED_WRITES_SORT.1@[0], path) matches Some(r) ==> (r.holds()
            <==> operand(row, all, "keys"@) == wanted(
            row,
            all,
            "[{ns}s/00\n{ns}s/01\n{ns}s/02\n{ns}s/03\n{ns}s/04\n{ns}s/05\n{ns}s/06\n{ns}s/07\n{ns}s/08\n{ns}s/09"@,
        )),
        s24::SCRAMBLED_WRITES_SORT.1@[1].0@ == ""@,
        ruling_on(row, all, s24::SCRAMBLED_WRITES_SORT.1@[1], path) matches Some(r) ==> (r.holds()
            <==> operand(row, all, "count"@) == Some(Truth::Int(10))),
{
    numerals_read_as_numbers();
    claims_of_equality_hold_where_facts_are_equal(row, all, s24::SCRAMBLED_WRITES_SORT.1@[0], path);
    claims_of_equality_hold_where_facts_are_equal(row, all, s24::SCRAMBLED_WRITES_SORT.1@[1], path);
}

/// What `LIMIT_CUTS_THE_ANSWER` demands, claim by claim.
pub proof fn limit_cuts_the_answer_demands(row: Seen, all: Seen, path: Seq<char>)
    ensures
        s25::LIMIT_CUTS_THE_ANSWER.1@[0].0@ == ""@,
        ruling_on(row, all, s25::LIMIT_CUTS_THE_ANSWER.1@[0], path) matches Some(r) ==> (r.holds()
            <==> operand(row, all, "len"@) == Some(Truth::Int(2))),
        s25::LIMIT_CUTS_THE_ANSWER.1@[1].0@ == ""@,
        ruling_on(row, all, s25::LIMIT_CUTS_THE_ANSWER.1@[1], path) matches Some(r) ==> (r.holds()
            <==> operand(row, all, "keys"@) == wanted(row, all, "[{ns}n/00\n{ns}n/01"@)),
        s25::LIMIT_CUTS_THE_ANSWER.1@[2].0@ == ""@,
        s25::LIMIT_CUTS_THE_ANSWER.1@[2].1@ == "? more"@,
        s25::LIMIT_CUTS_THE_ANSWER.1@[2].2@ == "more"@,
        s25::LIMIT_CUTS_THE_ANSWER.1@[3].0@ == ""@,
        ruling_on(row, all, s25::LIMIT_CUTS_THE_ANSWER.1@[3], path) matches Some(r) ==> (r.holds()
            <==> operand(row, all, "count"@) == Some(Truth::Int(5))),
{
    numerals_read_as_numbers();
    claims_of_equality_hold_where_facts_are_equal(row, all, s25::LIMIT_CUTS_THE_ANSWER.1@[0], path);
    claims_of_equality_hold_where_facts_are_equal(row, all, s25::LIMIT_CUTS_THE_ANSWER.1@[1], path);
    claims_of_equality_hold_where_facts_are_equal(row, all, s25::LIMIT_CUTS_THE_ANSWER.1@[3], path);
}

/// What `LIMIT_THAT_DOES_NOT_BITE` demands, claim by claim.
pub proof fn limit_that_does_not_bite_demands(row: Seen, all: Seen, path: Seq<char>)
    ensures
        s25::LIMIT_THAT_DOES_NOT_BITE.1@[0].0@ == ""@,
        ruling_on(row, all, s25::LIMIT_THAT_DOES_NOT_BITE.1@[0], path) matches Some(r) ==> (r.holds()
            <==> operand(row, all, "exact.len"@) == Some(Truth::Int(5))),
        s25::LIMIT_THAT_DOES_NOT_BITE.1@[1].0@ == ""@,
        s25::LIMIT_THAT_DOES_NOT_BITE.1@[1].1@ == "? !exact.more"@,
        s25::LIMIT_THAT_DOES_NOT_BITE.1@[1].2@ == "exact.more"@,
        s25::LIMIT_THAT_DOES_NOT_BITE.1@[2].0@ == ""@,
        ruling_on(row, all, s25::LIMIT_THAT_DOES_NOT_BITE.1@[2], path) matches Some(r) ==> (r.holds()
            <==> operand(row, all, "generous.len"@) == Some(Truth::Int(5))),
        s25::LIMIT_THAT_DOES_NOT_BITE.1@[3].0@ == ""@,
        s25::LIMIT_THAT_DOES_NOT_BITE.1@[3].1@ == "? !generous.more"@,
        s25::LIMIT_THAT_DOES_NOT_BITE.1@[3].2@ == "generous.more"@,
        s25::LIMIT_THAT_DOES_NOT_BITE.1@[4].0@ == ""@,
        ruling_on(row, all, s25::LIMIT_THAT_DOES_NOT_BITE.1@[4], path) matches Some(r) ==> (r.holds()
            <==> operand(row, all, "generous.keys"@) == wanted(
            row,
            all,
            "[{ns}n/00\n{ns}n/01\n{ns}n/02\n{ns}n/03\n{ns}n/04"@,
        )),
{
    numerals_read_as_numbers();
    claims_of_equality_hold_where_facts_are_equal(row, all, s25::LIMIT_THAT_DOES_NOT_BITE.1@[0], path);
    claims_of_equality_hold_where_facts_are_equal(row, all, s25::LIMIT_THAT_DOES_NOT_BITE.1@[2], path);
    claims_of_equality_hold_where_facts_are_equal(row, all, s25::LIMIT_THAT_DOES_NOT_BITE.1@[4], path);
}

/// What `DESCENDING_BY_KEY` demands, claim by claim.
pub proof fn descending_by_key_demands(row: Seen, all: Seen, path: Seq<char>)
    ensures
        s25::DESCENDING_BY_KEY.1@[0].0@ == ""@,
        ruling_on(row, all, s25::DESCENDING_BY_KEY.1@[0], path) matches Some(r) ==> (r.holds()
            <==> operand(row, all, "keys"@) == wanted(
            row,
            all,
            "[{ns}n/04\n{ns}n/03\n{ns}n/02\n{ns}n/01\n{ns}n/00"@,
        )),
        s25::DESCENDING_BY_KEY.1@[1].0@ == ""@,
        ruling_on(row, all, s25::DESCENDING_BY_KEY.1@[1], path) matches Some(r) ==> (r.holds()
            <==> operand(row, all, "count"@) == Some(Truth::Int(5))),
{
    numerals_read_as_numbers();
    claims_of_equality_hold_where_facts_are_equal(row, all, s25::DESCENDING_BY_KEY.1@[0], path);
    claims_of_equality_hold_where_facts_are_equal(row, all, s25::DESCENDING_BY_KEY.1@[1], path);
}

/// What `SORT_BY_MOD` demands, claim by claim.
pub proof fn sort_by_mod_demands(row: Seen, all: Seen, path: Seq<char>)
    ensures
        s25::SORT_BY_MOD.1@[0].0@ == ""@,
        ruling_on(row, all, s25::SORT_BY_MOD.1@[0], path) matches Some(r) ==> (r.holds()
            <==> operand(row, all, "ascending.keys"@) == wanted(
            row,
            all,
            "[{ns}m/c\n{ns}m/a\n{ns}m/e\n{ns}m/b\n{ns}m/d"@,
        )),
        s25::SORT_BY_MOD.1@[1].0@ == ""@,
        ruling_on(row, all, s25::SORT_BY_MOD.1@[1], path) matches Some(r) ==> (r.holds()
            <==> operand(row, all, "descending.keys"@) == wanted(
            row,
            all,
            "[{ns}m/d\n{ns}m/b\n{ns}m/e\n{ns}m/a\n{ns}m/c"@,
        )),
{
    claims_of_equality_hold_where_facts_are_equal(row, all, s25::SORT_BY_MOD.1@[0], path);
    claims_of_equality_hold_where_facts_are_equal(row, all, s25::SORT_BY_MOD.1@[1], path);
}

/// What `SORT_BY_CREATE` demands, claim by claim.
pub proof fn sort_by_create_demands(row: Seen, all: Seen, path: Seq<char>)
    ensures
        s25::SORT_BY_CREATE.1@[0].0@ == ""@,
        ruling_on(row, all, s25::SORT_BY_CREATE.1@[0], path) matches Some(r) ==> (r.holds()
            <==> operand(row, all, "keys"@) == wanted(
            row,
            all,
            "[{ns}c/d\n{ns}c/b\n{ns}c/e\n{ns}c/a\n{ns}c/c"@,
        )),
        s25::SORT_BY_CREATE.1@[1].0@ == ""@,
        ruling_on(row, all, s25::SORT_BY_CREATE.1@[1], path) matches Some(r) ==> (r.holds()
            <==> operand(row, all, "count"@) == Some(Truth::Int(5))),
{
    numerals_read_as_numbers();
    claims_of_equality_hold_where_facts_are_equal(row, all, s25::SORT_BY_CREATE.1@[0], path);
    claims_of_equality_hold_where_facts_are_equal(row, all, s25::SORT_BY_CREATE.1@[1], path);
}

/// What `COUNT_ONLY` demands, claim by claim.
pub proof fn count_only_demands(row: Seen, all: Seen, path: Seq<char>)
    ensures
        s25::COUNT_ONLY.1@[0].0@ == ""@,
        ruling_on(row, all, s25::COUNT_ONLY.1@[0], path) matches Some(r) ==> (r.holds()
            <==> operand(row, all, "count"@) == Some(Truth::Int(5))),
        s25::COUNT_ONLY.1@[1].0@ == ""@,
        ruling_on(row, all, s25::COUNT_ONLY.1@[1], path) matches Some(r) ==> (r.holds()
            <==> operand(row, all, "len"@) == Some(Truth::Int(0))),
{
    numerals_read_as_numbers();
    claims_of_equality_hold_where_facts_are_equal(row, all, s25::COUNT_ONLY.1@[0], path);
    claims_of_equality_hold_where_facts_are_equal(row, all, s25::COUNT_ONLY.1@[1], path);
}

/// What `KEYS_ONLY` demands, claim by claim.
pub proof fn keys_only_demands(row: Seen, all: Seen, path: Seq<char>)
    ensures
        s25::KEYS_ONLY.1@[0].0@ == ""@,
        ruling_on(row, all, s25::KEYS_ONLY.1@[0], path) matches Some(r) ==> (r.holds()
            <==> operand(row, all, "len"@) == Some(Truth::Int(5))),
        s25::KEYS_ONLY.1@[1].0@ == ""@,
        ruling_on(row, all, s25::KEYS_ONLY.1@[1], path) matches Some(r) ==> (r.holds()
            <==> operand(row, all, "keys"@) == wanted(
            row,
            all,
            "[{ns}n/00\n{ns}n/01\n{ns}n/02\n{ns}n/03\n{ns}n/04"@,
        )),
        s25::KEYS_ONLY.1@[2].0@ == ""@,
        ruling_on(row, all, s25::KEYS_ONLY.1@[2], path) matches Some(r) ==> (r.holds()
            <==> operand(row, all, "count"@) == Some(Truth::Int(5))),
        s25::KEYS_ONLY.1@[3].0@ == ""@,
        ruling_on(row, all, s25::KEYS_ONLY.1@[3], path) matches Some(r) ==> (r.holds()
            <==> operand(row, all, "value_bytes"@) == Some(Truth::Int(0))),
        s25::KEYS_ONLY.1@[4].0@ == ""@,
        s25::KEYS_ONLY.1@[4].1@ == "? positive mod_revisions"@,
        s25::KEYS_ONLY.1@[4].2@ == "mod_revisions"@,
{
    numerals_read_as_numbers();
    claims_of_equality_hold_where_facts_are_equal(row, all, s25::KEYS_ONLY.1@[0], path);
    claims_of_equality_hold_where_facts_are_equal(row, all, s25::KEYS_ONLY.1@[1], path);
    claims_of_equality_hold_where_facts_are_equal(row, all, s25::KEYS_ONLY.1@[2], path);
    claims_of_equality_hold_where_facts_are_equal(row, all, s25::KEYS_ONLY.1@[3], path);
}

/// What `LIMIT_WITH_A_DESCENDING_SORT` demands, claim by claim.
pub proof fn limit_with_a_descending_sort_demands(row: Seen, all: Seen, path: Seq<char>)
    ensures
        s25::LIMIT_WITH_A_DESCENDING_SORT.1@[0].0@ == ""@,
        ruling_on(row, all, s25::LIMIT_WITH_A_DESCENDING_SORT.1@[0], path) matches Some(r) ==> (r.holds()
            <==> operand(row, all, "keys"@) == wanted(row, all, "[{ns}n/04\n{ns}n/03"@)),
        s25::LIMIT_WITH_A_DESCENDING_SORT.1@[1].0@ == ""@,
        s25::LIMIT_WITH_A_DESCENDING_SORT.1@[1].1@ == "? more"@,
        s25::LIMIT_WITH_A_DESCENDING_SORT.1@[1].2@ == "more"@,
        s25::LIMIT_WITH_A_DESCENDING_SORT.1@[2].0@ == ""@,
        ruling_on(row, all, s25::LIMIT_WITH_A_DESCENDING_SORT.1@[2], path) matches Some(r) ==> (r.holds()
            <==> operand(row, all, "count"@) == Some(Truth::Int(5))),
{
    numerals_read_as_numbers();
    claims_of_equality_hold_where_facts_are_equal(row, all, s25::LIMIT_WITH_A_DESCENDING_SORT.1@[0], path);
    claims_of_equality_hold_where_facts_are_equal(row, all, s25::LIMIT_WITH_A_DESCENDING_SORT.1@[2], path);
}

/// What `OPTIONS_ON_AN_EMPTY_RANGE` demands, claim by claim.
pub proof fn options_on_an_empty_range_demands(row: Seen, all: Seen, path: Seq<char>)
    ensures
        s25::OPTIONS_ON_AN_EMPTY_RANGE.1@[0].0@ == ""@,
        ruling_on(row, all, s25::OPTIONS_ON_AN_EMPTY_RANGE.1@[0], path) matches Some(r) ==> (r.holds()
            <==> operand(row, all, "limited.len"@) == Some(Truth::Int(0))),
        s25::OPTIONS_ON_AN_EMPTY_RANGE.1@[1].0@ == ""@,
        ruling_on(row, all, s25::OPTIONS_ON_AN_EMPTY_RANGE.1@[1], path) matches Some(r) ==> (r.holds()
            <==> operand(row, all, "limited.count"@) == Some(Truth::Int(0))),
        s25::OPTIONS_ON_AN_EMPTY_RANGE.1@[2].0@ == ""@,
        s25::OPTIONS_ON_AN_EMPTY_RANGE.1@[2].1@ == "? !limited.more"@,
        s25::OPTIONS_ON_AN_EMPTY_RANGE.1@[2].2@ == "limited.more"@,
        s25::OPTIONS_ON_AN_EMPTY_RANGE.1@[3].0@ == ""@,
        ruling_on(row, all, s25::OPTIONS_ON_AN_EMPTY_RANGE.1@[3], path) matches Some(r) ==> (r.holds()
            <==> operand(row, all, "counted.count"@) == Some(Truth::Int(0))),
        s25::OPTIONS_ON_AN_EMPTY_RANGE.1@[4].0@ == ""@,
        ruling_on(row, all, s25::OPTIONS_ON_AN_EMPTY_RANGE.1@[4], path) matches Some(r) ==> (r.holds()
            <==> operand(row, all, "counted.len"@) == Some(Truth::Int(0))),
        s25::OPTIONS_ON_AN_EMPTY_RANGE.1@[5].0@ == ""@,
        ruling_on(row, all, s25::OPTIONS_ON_AN_EMPTY_RANGE.1@[5], path) matches Some(r) ==> (r.holds()
            <==> operand(row, all, "bare.len"@) == Some(Truth::Int(0))),
{
    numerals_read_as_numbers();
    claims_of_equality_hold_where_facts_are_equal(row, all, s25::OPTIONS_ON_AN_EMPTY_RANGE.1@[0], path);
    claims_of_equality_hold_where_facts_are_equal(row, all, s25::OPTIONS_ON_AN_EMPTY_RANGE.1@[1], path);
    claims_of_equality_hold_where_facts_are_equal(row, all, s25::OPTIONS_ON_AN_EMPTY_RANGE.1@[3], path);
    claims_of_equality_hold_where_facts_are_equal(row, all, s25::OPTIONS_ON_AN_EMPTY_RANGE.1@[4], path);
    claims_of_equality_hold_where_facts_are_equal(row, all, s25::OPTIONS_ON_AN_EMPTY_RANGE.1@[5], path);
}

/// What `THE_OLD_VALUE` demands, claim by claim.
pub proof fn the_old_value_demands(row: Seen, all: Seen, path: Seq<char>)
    ensures
        s26::THE_OLD_VALUE.1@[0].0@ == ""@,
        ruling_on(row, all, s26::THE_OLD_VALUE.1@[0], path) matches Some(r) ==> (r.holds()
            <==> operand(row, all, "old.count"@) == Some(Truth::Int(1))),
        s26::THE_OLD_VALUE.1@[1].0@ == ""@,
        ruling_on(row, all, s26::THE_OLD_VALUE.1@[1], path) matches Some(r) ==> (r.holds()
            <==> operand(row, all, "old.value"@) == wanted(row, all, "'one"@)),
        s26::THE_OLD_VALUE.1@[2].0@ == ""@,
        ruling_on(row, all, s26::THE_OLD_VALUE.1@[2], path) matches Some(r) ==> (r.holds()
            <==> operand(row, all, "old.mod_revision"@) == wanted(row, all, "first"@)),
        s26::THE_OLD_VALUE.1@[3].0@ == ""@,
        ruling_on(row, all, s26::THE_OLD_VALUE.1@[3], path) matches Some(r) ==> (r.holds()
            <==> operand(row, all, "old.version"@) == Some(Truth::Int(1))),
        s26::THE_OLD_VALUE.1@[4].0@ == ""@,
        ruling_on(row, all, s26::THE_OLD_VALUE.1@[4], path) matches Some(r) ==> (r.holds()
            <==> operand(row, all, "now.value"@) == wanted(row, all, "'two"@)),
        s26::THE_OLD_VALUE.1@[5].0@ == ""@,
        ruling_on(row, all, s26::THE_OLD_VALUE.1@[5], path) matches Some(r) ==> (r.holds()
            <==> operand(row, all, "now.mod_revision"@) == wanted(row, all, "second"@)),
{
    numerals_read_as_numbers();
    claims_of_equality_hold_where_facts_are_equal(row, all, s26::THE_OLD_VALUE.1@[0], path);
    claims_of_equality_hold_where_facts_are_equal(row, all, s26::THE_OLD_VALUE.1@[1], path);
    claims_of_equality_hold_where_facts_are_equal(row, all, s26::THE_OLD_VALUE.1@[2], path);
    claims_of_equality_hold_where_facts_are_equal(row, all, s26::THE_OLD_VALUE.1@[3], path);
    claims_of_equality_hold_where_facts_are_equal(row, all, s26::THE_OLD_VALUE.1@[4], path);
    claims_of_equality_hold_where_facts_are_equal(row, all, s26::THE_OLD_VALUE.1@[5], path);
}

/// What `DELETED_LATER_STILL_THERE` demands, claim by claim.
pub proof fn deleted_later_still_there_demands(row: Seen, all: Seen, path: Seq<char>)
    ensures
        s26::DELETED_LATER_STILL_THERE.1@[0].0@ == ""@,
        ruling_on(row, all, s26::DELETED_LATER_STILL_THERE.1@[0], path) matches Some(r) ==> (r.holds()
            <==> operand(row, all, "before.count"@) == Some(Truth::Int(1))),
        s26::DELETED_LATER_STILL_THERE.1@[1].0@ == ""@,
        ruling_on(row, all, s26::DELETED_LATER_STILL_THERE.1@[1], path) matches Some(r) ==> (r.holds()
            <==> operand(row, all, "before.value"@) == wanted(row, all, "'alive"@)),
        s26::DELETED_LATER_STILL_THERE.1@[2].0@ == ""@,
        ruling_on(row, all, s26::DELETED_LATER_STILL_THERE.1@[2], path) matches Some(r) ==> (r.holds()
            <==> operand(row, all, "now.count"@) == Some(Truth::Int(0))),
        s26::DELETED_LATER_STILL_THERE.1@[3].0@ == ""@,
        ruling_on(row, all, s26::DELETED_LATER_STILL_THERE.1@[3], path) matches Some(r) ==> (r.holds()
            <==> (operand(row, all, "delete"@) matches Some(Truth::Int(got)) && wanted(row, all, "put+1"@) matches Some(
            Truth::Int(want),
        ) && got >= want)),
{
    numerals_read_as_numbers();
    claims_of_equality_hold_where_facts_are_equal(row, all, s26::DELETED_LATER_STILL_THERE.1@[0], path);
    claims_of_equality_hold_where_facts_are_equal(row, all, s26::DELETED_LATER_STILL_THERE.1@[1], path);
    claims_of_equality_hold_where_facts_are_equal(row, all, s26::DELETED_LATER_STILL_THERE.1@[2], path);
    claims_of_size_are_of_numbers(row, all, s26::DELETED_LATER_STILL_THERE.1@[3], path);
}

/// What `CREATED_LATER_IS_ABSENT` demands, claim by claim.
pub proof fn created_later_is_absent_demands(row: Seen, all: Seen, path: Seq<char>)
    ensures
        s26::CREATED_LATER_IS_ABSENT.1@[0].0@ == ""@,
        ruling_on(row, all, s26::CREATED_LATER_IS_ABSENT.1@[0], path) matches Some(r) ==> (r.holds()
            <==> operand(row, all, "before.count"@) == Some(Truth::Int(0))),
        s26::CREATED_LATER_IS_ABSENT.1@[1].0@ == ""@,
        ruling_on(row, all, s26::CREATED_LATER_IS_ABSENT.1@[1], path) matches Some(r) ==> (r.holds()
            <==> operand(row, all, "before.len"@) == Some(Truth::Int(0))),
        s26::CREATED_LATER_IS_ABSENT.1@[2].0@ == ""@,
        ruling_on(row, all, s26::CREATED_LATER_IS_ABSENT.1@[2], path) matches Some(r) ==> (r.holds()
            <==> operand(row, all, "created.count"@) == Some(Truth::Int(1))),
{
    numerals_read_as_numbers();
    claims_of_equality_hold_where_facts_are_equal(row, all, s26::CREATED_LATER_IS_ABSENT.1@[0], path);
    claims_of_equality_hold_where_facts_are_equal(row, all, s26::CREATED_LATER_IS_ABSENT.1@[1], path);
    claims_of_equality_hold_where_facts_are_equal(row, all, s26::CREATED_LATER_IS_ABSENT.1@[2], path);
}

/// What `HEADER_IS_CURRENT` demands, claim by claim.
pub proof fn header_is_current_demands(row: Seen, all: Seen, path: Seq<char>)
    ensures
        s26::HEADER_IS_CURRENT.1@[0].0@ == ""@,
        ruling_on(row, all, s26::HEADER_IS_CURRENT.1@[0], path) matches Some(r) ==> (r.holds()
            <==> operand(row, all, "old"@) == wanted(row, all, "latest"@)),
        s26::HEADER_IS_CURRENT.1@[1].0@ == ""@,
        s26::HEADER_IS_CURRENT.1@[1].1@ == "? old > first"@,
        s26::HEADER_IS_CURRENT.1@[1].2@ == "first old"@,
{
    claims_of_equality_hold_where_facts_are_equal(row, all, s26::HEADER_IS_CURRENT.1@[0], path);
}

/// What `REVISION_ZERO_MEANS_NOW` demands, claim by claim.
pub proof fn revision_zero_means_now_demands(row: Seen, all: Seen, path: Seq<char>)
    ensures
        s26::REVISION_ZERO_MEANS_NOW.1@[0].0@ == ""@,
        ruling_on(row, all, s26::REVISION_ZERO_MEANS_NOW.1@[0], path) matches Some(r) ==> (r.holds()
            <==> operand(row, all, "zero.count"@) == Some(Truth::Int(1))),
        s26::REVISION_ZERO_MEANS_NOW.1@[1].0@ == ""@,
        ruling_on(row, all, s26::REVISION_ZERO_MEANS_NOW.1@[1], path) matches Some(r) ==> (r.holds()
            <==> operand(row, all, "zero.value"@) == wanted(row, all, "'latest"@)),
        s26::REVISION_ZERO_MEANS_NOW.1@[2].0@ == ""@,
        ruling_on(row, all, s26::REVISION_ZERO_MEANS_NOW.1@[2], path) matches Some(r) ==> (r.holds()
            <==> operand(row, all, "zero.kvs"@) == wanted(row, all, "omitted.kvs"@)),
        s26::REVISION_ZERO_MEANS_NOW.1@[3].0@ == ""@,
        ruling_on(row, all, s26::REVISION_ZERO_MEANS_NOW.1@[3], path) matches Some(r) ==> (r.holds()
            <==> operand(row, all, "zero.revision"@) == wanted(row, all, "omitted.revision"@)),
{
    numerals_read_as_numbers();
    claims_of_equality_hold_where_facts_are_equal(row, all, s26::REVISION_ZERO_MEANS_NOW.1@[0], path);
    claims_of_equality_hold_where_facts_are_equal(row, all, s26::REVISION_ZERO_MEANS_NOW.1@[1], path);
    claims_of_equality_hold_where_facts_are_equal(row, all, s26::REVISION_ZERO_MEANS_NOW.1@[2], path);
    claims_of_equality_hold_where_facts_are_equal(row, all, s26::REVISION_ZERO_MEANS_NOW.1@[3], path);
}

/// What `A_FUTURE_REVISION` demands, claim by claim.
pub proof fn a_future_revision_demands(row: Seen, all: Seen, path: Seq<char>)
    ensures
        s26::A_FUTURE_REVISION.1@[2].0@ == ""@,
        ruling_on(row, all, s26::A_FUTURE_REVISION.1@[2], path) matches Some(r) ==> (r.holds()
            <==> operand(row, all, "now.count"@) == Some(Truth::Int(1))),
{
    numerals_read_as_numbers();
    claims_of_equality_hold_where_facts_are_equal(row, all, s26::A_FUTURE_REVISION.1@[2], path);
}

/// What `A_HISTORICAL_RANGE` demands, claim by claim.
pub proof fn a_historical_range_demands(row: Seen, all: Seen, path: Seq<char>)
    ensures
        s26::A_HISTORICAL_RANGE.1@[0].0@ == ""@,
        ruling_on(row, all, s26::A_HISTORICAL_RANGE.1@[0], path) matches Some(r) ==> (r.holds()
            <==> operand(row, all, "old.keys"@) == wanted(row, all, "[{ns}h/00\n{ns}h/01\n{ns}h/02"@)),
        s26::A_HISTORICAL_RANGE.1@[1].0@ == ""@,
        ruling_on(row, all, s26::A_HISTORICAL_RANGE.1@[1], path) matches Some(r) ==> (r.holds()
            <==> operand(row, all, "old.count"@) == Some(Truth::Int(3))),
        s26::A_HISTORICAL_RANGE.1@[2].0@ == ""@,
        ruling_on(row, all, s26::A_HISTORICAL_RANGE.1@[2], path) matches Some(r) ==> (r.holds()
            <==> operand(row, all, "now.keys"@) == wanted(row, all, "[{ns}h/00\n{ns}h/02\n{ns}h/03"@)),
{
    numerals_read_as_numbers();
    claims_of_equality_hold_where_facts_are_equal(row, all, s26::A_HISTORICAL_RANGE.1@[0], path);
    claims_of_equality_hold_where_facts_are_equal(row, all, s26::A_HISTORICAL_RANGE.1@[1], path);
    claims_of_equality_hold_where_facts_are_equal(row, all, s26::A_HISTORICAL_RANGE.1@[2], path);
}

/// What `HISTORICAL_OPTIONS` demands, claim by claim.
pub proof fn historical_options_demands(row: Seen, all: Seen, path: Seq<char>)
    ensures
        s26::HISTORICAL_OPTIONS.1@[0].0@ == ""@,
        ruling_on(row, all, s26::HISTORICAL_OPTIONS.1@[0], path) matches Some(r) ==> (r.holds()
            <==> operand(row, all, "keys"@) == wanted(row, all, "[{ns}o/04\n{ns}o/03"@)),
        s26::HISTORICAL_OPTIONS.1@[1].0@ == ""@,
        ruling_on(row, all, s26::HISTORICAL_OPTIONS.1@[1], path) matches Some(r) ==> (r.holds()
            <==> operand(row, all, "count"@) == Some(Truth::Int(5))),
        s26::HISTORICAL_OPTIONS.1@[2].0@ == ""@,
        s26::HISTORICAL_OPTIONS.1@[2].1@ == "? more"@,
        s26::HISTORICAL_OPTIONS.1@[2].2@ == "more"@,
{
    numerals_read_as_numbers();
    claims_of_equality_hold_where_facts_are_equal(row, all, s26::HISTORICAL_OPTIONS.1@[0], path);
    claims_of_equality_hold_where_facts_are_equal(row, all, s26::HISTORICAL_OPTIONS.1@[1], path);
}

/// What `GRANT_ANSWERS_ID_AND_TTL` demands, claim by claim.
pub proof fn grant_answers_id_and_ttl_demands(row: Seen, all: Seen, path: Seq<char>)
    ensures
        s31::GRANT_ANSWERS_ID_AND_TTL.1@[0].0@ == ""@,
        ruling_on(row, all, s31::GRANT_ANSWERS_ID_AND_TTL.1@[0], path) matches Some(r) ==> (r.holds()
            <==> operand(row, all, "id"@) != Some(Truth::Int(0))),
        s31::GRANT_ANSWERS_ID_AND_TTL.1@[1].0@ == ""@,
        s31::GRANT_ANSWERS_ID_AND_TTL.1@[1].1@ == "in"@,
        s31::GRANT_ANSWERS_ID_AND_TTL.1@[1].2@ == "ttl"@,
        s31::GRANT_ANSWERS_ID_AND_TTL.1@[1].3@ == "1 30"@,
        s31::GRANT_ANSWERS_ID_AND_TTL.1@[2].0@ == ""@,
        ruling_on(row, all, s31::GRANT_ANSWERS_ID_AND_TTL.1@[2], path) matches Some(r) ==> (r.holds()
            <==> operand(row, all, "error"@) == wanted(row, all, "'"@)),
        s31::GRANT_ANSWERS_ID_AND_TTL.1@[3].0@ == ""@,
        ruling_on(row, all, s31::GRANT_ANSWERS_ID_AND_TTL.1@[3], path) matches Some(r) ==> (r.holds()
            <==> operand(row, all, "cluster_id"@) != Some(Truth::Int(0))),
        s31::GRANT_ANSWERS_ID_AND_TTL.1@[4].0@ == ""@,
        ruling_on(row, all, s31::GRANT_ANSWERS_ID_AND_TTL.1@[4], path) matches Some(r) ==> (r.holds()
            <==> operand(row, all, "revision"@) == wanted(row, all, "before"@)),
{
    numerals_read_as_numbers();
    claims_of_equality_hold_where_facts_are_equal(row, all, s31::GRANT_ANSWERS_ID_AND_TTL.1@[0], path);
    claims_of_equality_hold_where_facts_are_equal(row, all, s31::GRANT_ANSWERS_ID_AND_TTL.1@[2], path);
    claims_of_equality_hold_where_facts_are_equal(row, all, s31::GRANT_ANSWERS_ID_AND_TTL.1@[3], path);
    claims_of_equality_hold_where_facts_are_equal(row, all, s31::GRANT_ANSWERS_ID_AND_TTL.1@[4], path);
}

/// What `PUT_BINDS_THE_KEY` demands, claim by claim.
pub proof fn put_binds_the_key_demands(row: Seen, all: Seen, path: Seq<char>)
    ensures
        s31::PUT_BINDS_THE_KEY.1@[0].0@ == ""@,
        ruling_on(row, all, s31::PUT_BINDS_THE_KEY.1@[0], path) matches Some(r) ==> (r.holds()
            <==> operand(row, all, "leased.lease"@) == wanted(row, all, "id"@)),
        s31::PUT_BINDS_THE_KEY.1@[1].0@ == ""@,
        ruling_on(row, all, s31::PUT_BINDS_THE_KEY.1@[1], path) matches Some(r) ==> (r.holds()
            <==> operand(row, all, "leased.value"@) == wanted(row, all, "'v"@)),
        s31::PUT_BINDS_THE_KEY.1@[2].0@ == ""@,
        ruling_on(row, all, s31::PUT_BINDS_THE_KEY.1@[2], path) matches Some(r) ==> (r.holds()
            <==> operand(row, all, "plain.lease"@) == Some(Truth::Int(0))),
{
    numerals_read_as_numbers();
    claims_of_equality_hold_where_facts_are_equal(row, all, s31::PUT_BINDS_THE_KEY.1@[0], path);
    claims_of_equality_hold_where_facts_are_equal(row, all, s31::PUT_BINDS_THE_KEY.1@[1], path);
    claims_of_equality_hold_where_facts_are_equal(row, all, s31::PUT_BINDS_THE_KEY.1@[2], path);
}

/// What `EXPIRY_REMOVES_THE_KEY` demands, claim by claim.
pub proof fn expiry_removes_the_key_demands(row: Seen, all: Seen, path: Seq<char>)
    ensures
        s31::EXPIRY_REMOVES_THE_KEY.1@[1].0@ == ""@,
        ruling_on(row, all, s31::EXPIRY_REMOVES_THE_KEY.1@[1], path) matches Some(r) ==> (r.holds()
            <==> operand(row, all, "present.count"@) == Some(Truth::Int(1))),
        s31::EXPIRY_REMOVES_THE_KEY.1@[2].0@ == ""@,
        ruling_on(row, all, s31::EXPIRY_REMOVES_THE_KEY.1@[2], path) matches Some(r) ==> (r.holds()
            <==> operand(row, all, "gone.count"@) == Some(Truth::Int(0))),
        s31::EXPIRY_REMOVES_THE_KEY.1@[3].0@ == ""@,
        ruling_on(row, all, s31::EXPIRY_REMOVES_THE_KEY.1@[3], path) matches Some(r) ==> (r.holds()
            <==> (operand(row, all, "gone.revision"@) matches Some(Truth::Int(got)) && wanted(row, all, "put+1"@) matches Some(
            Truth::Int(want),
        ) && got >= want)),
        s31::EXPIRY_REMOVES_THE_KEY.1@[4].0@ == ""@,
        ruling_on(row, all, s31::EXPIRY_REMOVES_THE_KEY.1@[4], path) matches Some(r) ==> (r.holds()
            <==> (operand(row, all, "lived"@) matches Some(Truth::Int(got)) && got >= 2000)),
{
    numerals_read_as_numbers();
    claims_of_equality_hold_where_facts_are_equal(row, all, s31::EXPIRY_REMOVES_THE_KEY.1@[1], path);
    claims_of_equality_hold_where_facts_are_equal(row, all, s31::EXPIRY_REMOVES_THE_KEY.1@[2], path);
    claims_of_size_are_of_numbers(row, all, s31::EXPIRY_REMOVES_THE_KEY.1@[3], path);
    claims_of_size_are_of_numbers(row, all, s31::EXPIRY_REMOVES_THE_KEY.1@[4], path);
}

/// What `REVOKE_REMOVES_THE_KEYS` demands, claim by claim.
pub proof fn revoke_removes_the_keys_demands(row: Seen, all: Seen, path: Seq<char>)
    ensures
        s31::REVOKE_REMOVES_THE_KEYS.1@[0].0@ == ""@,
        ruling_on(row, all, s31::REVOKE_REMOVES_THE_KEYS.1@[0], path) matches Some(r) ==> (r.holds()
            <==> operand(row, all, "gone.count"@) == Some(Truth::Int(0))),
        s31::REVOKE_REMOVES_THE_KEYS.1@[1].0@ == ""@,
        ruling_on(row, all, s31::REVOKE_REMOVES_THE_KEYS.1@[1], path) matches Some(r) ==> (r.holds()
            <==> operand(row, all, "kept.count"@) == Some(Truth::Int(1))),
        s31::REVOKE_REMOVES_THE_KEYS.1@[2].0@ == ""@,
        ruling_on(row, all, s31::REVOKE_REMOVES_THE_KEYS.1@[2], path) matches Some(r) ==> (r.holds()
            <==> (operand(row, all, "revoke"@) matches Some(Truth::Int(got)) && wanted(row, all, "put+1"@) matches Some(
            Truth::Int(want),
        ) && got >= want)),
{
    numerals_read_as_numbers();
    claims_of_equality_hold_where_facts_are_equal(row, all, s31::REVOKE_REMOVES_THE_KEYS.1@[0], path);
    claims_of_equality_hold_where_facts_are_equal(row, all, s31::REVOKE_REMOVES_THE_KEYS.1@[1], path);
    claims_of_size_are_of_numbers(row, all, s31::REVOKE_REMOVES_THE_KEYS.1@[2], path);
}

/// What `REVOKE_TWICE` demands, claim by claim.
pub proof fn revoke_twice_demands(row: Seen, all: Seen, path: Seq<char>)
    ensures
        s31::REVOKE_TWICE.1@[0].0@ == ""@,
        ruling_on(row, all, s31::REVOKE_TWICE.1@[0], path) matches Some(r) ==> (r.holds()
            <==> operand(row, all, "count"@) == Some(Truth::Int(0))),
{
    numerals_read_as_numbers();
    claims_of_equality_hold_where_facts_are_equal(row, all, s31::REVOKE_TWICE.1@[0], path);
}

/// What `PUT_WITH_AN_UNKNOWN_LEASE` demands, claim by claim.
pub proof fn put_with_an_unknown_lease_demands(row: Seen, all: Seen, path: Seq<char>)
    ensures
        s31::PUT_WITH_AN_UNKNOWN_LEASE.1@[0].0@ == ""@,
        ruling_on(row, all, s31::PUT_WITH_AN_UNKNOWN_LEASE.1@[0], path) matches Some(r) ==> (r.holds()
            <==> operand(row, all, "count"@) == Some(Truth::Int(0))),
        s31::PUT_WITH_AN_UNKNOWN_LEASE.1@[1].0@ == ""@,
        ruling_on(row, all, s31::PUT_WITH_AN_UNKNOWN_LEASE.1@[1], path) matches Some(r) ==> (r.holds()
            <==> operand(row, all, "revision"@) == wanted(row, all, "before"@)),
{
    numerals_read_as_numbers();
    claims_of_equality_hold_where_facts_are_equal(row, all, s31::PUT_WITH_AN_UNKNOWN_LEASE.1@[0], path);
    claims_of_equality_hold_where_facts_are_equal(row, all, s31::PUT_WITH_AN_UNKNOWN_LEASE.1@[1], path);
}

/// What `ONE_LEASE_ONE_REVISION` demands, claim by claim.
pub proof fn one_lease_one_revision_demands(row: Seen, all: Seen, path: Seq<char>)
    ensures
        s31::ONE_LEASE_ONE_REVISION.1@[0].0@ == ""@,
        ruling_on(row, all, s31::ONE_LEASE_ONE_REVISION.1@[0], path) matches Some(r) ==> (r.holds()
            <==> operand(row, all, "present.count"@) == Some(Truth::Int(4))),
        s31::ONE_LEASE_ONE_REVISION.1@[1].0@ == ""@,
        ruling_on(row, all, s31::ONE_LEASE_ONE_REVISION.1@[1], path) matches Some(r) ==> (r.holds()
            <==> operand(row, all, "gone.count"@) == Some(Truth::Int(0))),
        s31::ONE_LEASE_ONE_REVISION.1@[2].0@ == ""@,
        ruling_on(row, all, s31::ONE_LEASE_ONE_REVISION.1@[2], path) matches Some(r) ==> (r.holds()
            <==> operand(row, all, "gone.revision"@) == wanted(row, all, "last+1"@)),
{
    numerals_read_as_numbers();
    claims_of_equality_hold_where_facts_are_equal(row, all, s31::ONE_LEASE_ONE_REVISION.1@[0], path);
    claims_of_equality_hold_where_facts_are_equal(row, all, s31::ONE_LEASE_ONE_REVISION.1@[1], path);
    claims_of_equality_hold_where_facts_are_equal(row, all, s31::ONE_LEASE_ONE_REVISION.1@[2], path);
}

/// What `DETACHED_KEY_SURVIVES` demands, claim by claim.
pub proof fn detached_key_survives_demands(row: Seen, all: Seen, path: Seq<char>)
    ensures
        s31::DETACHED_KEY_SURVIVES.1@[0].0@ == ""@,
        ruling_on(row, all, s31::DETACHED_KEY_SURVIVES.1@[0], path) matches Some(r) ==> (r.holds()
            <==> operand(row, all, "count"@) == Some(Truth::Int(1))),
        s31::DETACHED_KEY_SURVIVES.1@[1].0@ == ""@,
        ruling_on(row, all, s31::DETACHED_KEY_SURVIVES.1@[1], path) matches Some(r) ==> (r.holds()
            <==> operand(row, all, "value"@) == wanted(row, all, "'mine now"@)),
        s31::DETACHED_KEY_SURVIVES.1@[2].0@ == ""@,
        ruling_on(row, all, s31::DETACHED_KEY_SURVIVES.1@[2], path) matches Some(r) ==> (r.holds()
            <==> operand(row, all, "lease"@) == Some(Truth::Int(0))),
{
    numerals_read_as_numbers();
    claims_of_equality_hold_where_facts_are_equal(row, all, s31::DETACHED_KEY_SURVIVES.1@[0], path);
    claims_of_equality_hold_where_facts_are_equal(row, all, s31::DETACHED_KEY_SURVIVES.1@[1], path);
    claims_of_equality_hold_where_facts_are_equal(row, all, s31::DETACHED_KEY_SURVIVES.1@[2], path);
}

/// What `TWO_LEASES_ARE_INDEPENDENT` demands, claim by claim.
pub proof fn two_leases_are_independent_demands(row: Seen, all: Seen, path: Seq<char>)
    ensures
        s31::TWO_LEASES_ARE_INDEPENDENT.1@[0].0@ == ""@,
        ruling_on(row, all, s31::TWO_LEASES_ARE_INDEPENDENT.1@[0], path) matches Some(r) ==> (r.holds()
            <==> operand(row, all, "second.id"@) != wanted(row, all, "first.id"@)),
        s31::TWO_LEASES_ARE_INDEPENDENT.1@[1].0@ == ""@,
        ruling_on(row, all, s31::TWO_LEASES_ARE_INDEPENDENT.1@[1], path) matches Some(r) ==> (r.holds()
            <==> operand(row, all, "gone.count"@) == Some(Truth::Int(0))),
        s31::TWO_LEASES_ARE_INDEPENDENT.1@[2].0@ == ""@,
        ruling_on(row, all, s31::TWO_LEASES_ARE_INDEPENDENT.1@[2], path) matches Some(r) ==> (r.holds()
            <==> operand(row, all, "kept.count"@) == Some(Truth::Int(1))),
        s31::TWO_LEASES_ARE_INDEPENDENT.1@[3].0@ == ""@,
        ruling_on(row, all, s31::TWO_LEASES_ARE_INDEPENDENT.1@[3], path) matches Some(r) ==> (r.holds()
            <==> operand(row, all, "kept.lease"@) == wanted(row, all, "second.id"@)),
{
    numerals_read_as_numbers();
    claims_of_equality_hold_where_facts_are_equal(row, all, s31::TWO_LEASES_ARE_INDEPENDENT.1@[0], path);
    claims_of_equality_hold_where_facts_are_equal(row, all, s31::TWO_LEASES_ARE_INDEPENDENT.1@[1], path);
    claims_of_equality_hold_where_facts_are_equal(row, all, s31::TWO_LEASES_ARE_INDEPENDENT.1@[2], path);
    claims_of_equality_hold_where_facts_are_equal(row, all, s31::TWO_LEASES_ARE_INDEPENDENT.1@[3], path);
}

/// What `ANSWERS_THE_ID` demands, claim by claim.
pub proof fn answers_the_id_demands(row: Seen, all: Seen, path: Seq<char>)
    ensures
        s32::ANSWERS_THE_ID.1@[0].0@ == ""@,
        ruling_on(row, all, s32::ANSWERS_THE_ID.1@[0], path) matches Some(r) ==> (r.holds()
            <==> operand(row, all, "alive.id"@) == wanted(row, all, "lease.id"@)),
        s32::ANSWERS_THE_ID.1@[1].0@ == ""@,
        s32::ANSWERS_THE_ID.1@[1].1@ == "in"@,
        s32::ANSWERS_THE_ID.1@[1].2@ == "alive.ttl"@,
        s32::ANSWERS_THE_ID.1@[1].3@ == "1 30"@,
        s32::ANSWERS_THE_ID.1@[2].0@ == ""@,
        ruling_on(row, all, s32::ANSWERS_THE_ID.1@[2], path) matches Some(r) ==> (r.holds()
            <==> operand(row, all, "alive.error"@) == wanted(row, all, "'"@)),
        s32::ANSWERS_THE_ID.1@[3].0@ == ""@,
        ruling_on(row, all, s32::ANSWERS_THE_ID.1@[3], path) matches Some(r) ==> (r.holds()
            <==> operand(row, all, "alive.cluster_id"@) == wanted(row, all, "lease.cluster_id"@)),
{
    claims_of_equality_hold_where_facts_are_equal(row, all, s32::ANSWERS_THE_ID.1@[0], path);
    claims_of_equality_hold_where_facts_are_equal(row, all, s32::ANSWERS_THE_ID.1@[2], path);
    claims_of_equality_hold_where_facts_are_equal(row, all, s32::ANSWERS_THE_ID.1@[3], path);
}

/// What `RENEWAL_KEEPS_THE_KEY` demands, claim by claim.
pub proof fn renewal_keeps_the_key_demands(row: Seen, all: Seen, path: Seq<char>)
    ensures
        s32::RENEWAL_KEEPS_THE_KEY.1@[1].0@ == ""@,
        ruling_on(row, all, s32::RENEWAL_KEEPS_THE_KEY.1@[1], path) matches Some(r) ==> (r.holds()
            <==> (operand(row, all, "lived"@) matches Some(Truth::Int(got)) && got >= 4000)),
        s32::RENEWAL_KEEPS_THE_KEY.1@[2].0@ == ""@,
        ruling_on(row, all, s32::RENEWAL_KEEPS_THE_KEY.1@[2], path) matches Some(r) ==> (r.holds()
            <==> operand(row, all, "count"@) == Some(Truth::Int(1))),
        s32::RENEWAL_KEEPS_THE_KEY.1@[3].0@ == ""@,
        ruling_on(row, all, s32::RENEWAL_KEEPS_THE_KEY.1@[3], path) matches Some(r) ==> (r.holds()
            <==> operand(row, all, "lease"@) == wanted(row, all, "id"@)),
{
    numerals_read_as_numbers();
    claims_of_size_are_of_numbers(row, all, s32::RENEWAL_KEEPS_THE_KEY.1@[1], path);
    claims_of_equality_hold_where_facts_are_equal(row, all, s32::RENEWAL_KEEPS_THE_KEY.1@[2], path);
    claims_of_equality_hold_where_facts_are_equal(row, all, s32::RENEWAL_KEEPS_THE_KEY.1@[3], path);
}

/// What `THE_KEY_GOES_WHEN_RENEWAL_STOPS` demands, claim by claim.
pub proof fn the_key_goes_when_renewal_stops_demands(row: Seen, all: Seen, path: Seq<char>)
    ensures
        s32::THE_KEY_GOES_WHEN_RENEWAL_STOPS.1@[1].0@ == ""@,
        ruling_on(row, all, s32::THE_KEY_GOES_WHEN_RENEWAL_STOPS.1@[1], path) matches Some(r) ==> (r.holds()
            <==> operand(row, all, "held.count"@) == Some(Truth::Int(1))),
        s32::THE_KEY_GOES_WHEN_RENEWAL_STOPS.1@[2].0@ == ""@,
        ruling_on(row, all, s32::THE_KEY_GOES_WHEN_RENEWAL_STOPS.1@[2], path) matches Some(r) ==> (r.holds()
            <==> operand(row, all, "gone.count"@) == Some(Truth::Int(0))),
        s32::THE_KEY_GOES_WHEN_RENEWAL_STOPS.1@[3].0@ == ""@,
        ruling_on(row, all, s32::THE_KEY_GOES_WHEN_RENEWAL_STOPS.1@[3], path) matches Some(r) ==> (r.holds()
            <==> (operand(row, all, "after"@) matches Some(Truth::Int(got)) && got >= 2000)),
{
    numerals_read_as_numbers();
    claims_of_equality_hold_where_facts_are_equal(row, all, s32::THE_KEY_GOES_WHEN_RENEWAL_STOPS.1@[1], path);
    claims_of_equality_hold_where_facts_are_equal(row, all, s32::THE_KEY_GOES_WHEN_RENEWAL_STOPS.1@[2], path);
    claims_of_size_are_of_numbers(row, all, s32::THE_KEY_GOES_WHEN_RENEWAL_STOPS.1@[3], path);
}

/// What `UNKNOWN_LEASE_ANSWERS_ZERO` demands, claim by claim.
pub proof fn unknown_lease_answers_zero_demands(row: Seen, all: Seen, path: Seq<char>)
    ensures
        s32::UNKNOWN_LEASE_ANSWERS_ZERO.1@[0].0@ == ""@,
        ruling_on(row, all, s32::UNKNOWN_LEASE_ANSWERS_ZERO.1@[0], path) matches Some(r) ==> (r.holds()
            <==> operand(row, all, "id"@) == Some(Truth::Int(6543210))),
        s32::UNKNOWN_LEASE_ANSWERS_ZERO.1@[1].0@ == ""@,
        ruling_on(row, all, s32::UNKNOWN_LEASE_ANSWERS_ZERO.1@[1], path) matches Some(r) ==> (r.holds()
            <==> operand(row, all, "ttl"@) == Some(Truth::Int(0))),
        s32::UNKNOWN_LEASE_ANSWERS_ZERO.1@[2].0@ == ""@,
        ruling_on(row, all, s32::UNKNOWN_LEASE_ANSWERS_ZERO.1@[2], path) matches Some(r) ==> (r.holds()
            <==> operand(row, all, "cluster_id"@) != Some(Truth::Int(0))),
{
    numerals_read_as_numbers();
    claims_of_equality_hold_where_facts_are_equal(row, all, s32::UNKNOWN_LEASE_ANSWERS_ZERO.1@[0], path);
    claims_of_equality_hold_where_facts_are_equal(row, all, s32::UNKNOWN_LEASE_ANSWERS_ZERO.1@[1], path);
    claims_of_equality_hold_where_facts_are_equal(row, all, s32::UNKNOWN_LEASE_ANSWERS_ZERO.1@[2], path);
}

/// What `REVOKED_LEASE_ANSWERS_ZERO` demands, claim by claim.
pub proof fn revoked_lease_answers_zero_demands(row: Seen, all: Seen, path: Seq<char>)
    ensures
        s32::REVOKED_LEASE_ANSWERS_ZERO.1@[0].0@ == ""@,
        ruling_on(row, all, s32::REVOKED_LEASE_ANSWERS_ZERO.1@[0], path) matches Some(r) ==> (r.holds()
            <==> operand(row, all, "alive.id"@) == wanted(row, all, "lease.id"@)),
        s32::REVOKED_LEASE_ANSWERS_ZERO.1@[1].0@ == ""@,
        ruling_on(row, all, s32::REVOKED_LEASE_ANSWERS_ZERO.1@[1], path) matches Some(r) ==> (r.holds()
            <==> operand(row, all, "alive.ttl"@) == Some(Truth::Int(0))),
        s32::REVOKED_LEASE_ANSWERS_ZERO.1@[2].0@ == ""@,
        ruling_on(row, all, s32::REVOKED_LEASE_ANSWERS_ZERO.1@[2], path) matches Some(r) ==> (r.holds()
            <==> operand(row, all, "count"@) == Some(Truth::Int(0))),
{
    numerals_read_as_numbers();
    claims_of_equality_hold_where_facts_are_equal(row, all, s32::REVOKED_LEASE_ANSWERS_ZERO.1@[0], path);
    claims_of_equality_hold_where_facts_are_equal(row, all, s32::REVOKED_LEASE_ANSWERS_ZERO.1@[1], path);
    claims_of_equality_hold_where_facts_are_equal(row, all, s32::REVOKED_LEASE_ANSWERS_ZERO.1@[2], path);
}

/// What `RENEWAL_IS_NOT_A_WRITE` demands, claim by claim.
pub proof fn renewal_is_not_a_write_demands(row: Seen, all: Seen, path: Seq<char>)
    ensures
        s32::RENEWAL_IS_NOT_A_WRITE.1@[0].0@ == ""@,
        ruling_on(row, all, s32::RENEWAL_IS_NOT_A_WRITE.1@[0], path) matches Some(r) ==> (r.holds()
            <==> operand(row, all, "after"@) == wanted(row, all, "before"@)),
{
    claims_of_equality_hold_where_facts_are_equal(row, all, s32::RENEWAL_IS_NOT_A_WRITE.1@[0], path);
}

/// What `RENEWAL_IS_PER_LEASE` demands, claim by claim.
pub proof fn renewal_is_per_lease_demands(row: Seen, all: Seen, path: Seq<char>)
    ensures
        s32::RENEWAL_IS_PER_LEASE.1@[0].0@ == ""@,
        ruling_on(row, all, s32::RENEWAL_IS_PER_LEASE.1@[0], path) matches Some(r) ==> (r.holds()
            <==> operand(row, all, "kept.count"@) == Some(Truth::Int(1))),
        s32::RENEWAL_IS_PER_LEASE.1@[1].0@ == ""@,
        ruling_on(row, all, s32::RENEWAL_IS_PER_LEASE.1@[1], path) matches Some(r) ==> (r.holds()
            <==> operand(row, all, "kept.lease"@) == wanted(row, all, "held.id"@)),
        s32::RENEWAL_IS_PER_LEASE.1@[2].0@ == ""@,
        ruling_on(row, all, s32::RENEWAL_IS_PER_LEASE.1@[2], path) matches Some(r) ==> (r.holds()
            <==> operand(row, all, "gone.count"@) == Some(Truth::Int(0))),
{
    numerals_read_as_numbers();
    claims_of_equality_hold_where_facts_are_equal(row, all, s32::RENEWAL_IS_PER_LEASE.1@[0], path);
    claims_of_equality_hold_where_facts_are_equal(row, all, s32::RENEWAL_IS_PER_LEASE.1@[1], path);
    claims_of_equality_hold_where_facts_are_equal(row, all, s32::RENEWAL_IS_PER_LEASE.1@[2], path);
}

/// What `EVERY_MEMBER_ANSWERS` demands, claim by claim.
pub proof fn every_member_answers_demands(row: Seen, all: Seen, path: Seq<char>)
    ensures
        s36::EVERY_MEMBER_ANSWERS.1@[0].0@ == "member/answer"@,
        ruling_on(row, all, s36::EVERY_MEMBER_ANSWERS.1@[0], path) matches Some(r) ==> (r.holds()
            <==> operand(row, all, "member_id"@) != Some(Truth::Int(0))),
        s36::EVERY_MEMBER_ANSWERS.1@[1].0@ == "member/answer"@,
        ruling_on(row, all, s36::EVERY_MEMBER_ANSWERS.1@[1], path) matches Some(r) ==> (r.holds()
            <==> (operand(row, all, "revision"@) matches Some(Truth::Int(got)) && got >= 1)),
        s36::EVERY_MEMBER_ANSWERS.1@[2].0@ == "member/silence"@,
        s36::EVERY_MEMBER_ANSWERS.1@[2].1@ == "? answered"@,
        s36::EVERY_MEMBER_ANSWERS.1@[2].2@ == "error"@,
{
    numerals_read_as_numbers();
    claims_of_equality_hold_where_facts_are_equal(row, all, s36::EVERY_MEMBER_ANSWERS.1@[0], path);
    claims_of_size_are_of_numbers(row, all, s36::EVERY_MEMBER_ANSWERS.1@[1], path);
}

/// What `LEADER_IS_A_MEMBER` demands, claim by claim.
pub proof fn leader_is_a_member_demands(row: Seen, all: Seen, path: Seq<char>)
    ensures
        s36::LEADER_IS_A_MEMBER.1@[0].0@ == ""@,
        ruling_on(row, all, s36::LEADER_IS_A_MEMBER.1@[0], path) matches Some(r) ==> (r.holds()
            <==> operand(row, all, "named"@) == wanted(row, all, "member_id"@)),
        s36::LEADER_IS_A_MEMBER.1@[1].0@ == ""@,
        s36::LEADER_IS_A_MEMBER.1@[1].1@ == "? leader < 3"@,
        s36::LEADER_IS_A_MEMBER.1@[1].2@ == "leader"@,
{
    claims_of_equality_hold_where_facts_are_equal(row, all, s36::LEADER_IS_A_MEMBER.1@[0], path);
}

/// What `SAME_CLUSTER_ID` demands, claim by claim.
pub proof fn same_cluster_id_demands(row: Seen, all: Seen, path: Seq<char>)
    ensures
        s36::SAME_CLUSTER_ID.1@[0].0@ == "member"@,
        ruling_on(row, all, s36::SAME_CLUSTER_ID.1@[0], path) matches Some(r) ==> (r.holds()
            <==> operand(row, all, "cluster_id"@) == wanted(row, all, "first"@)),
{
    claims_of_equality_hold_where_facts_are_equal(row, all, s36::SAME_CLUSTER_ID.1@[0], path);
}

/// What `DISTINCT_MEMBER_IDS` demands, claim by claim.
pub proof fn distinct_member_ids_demands(row: Seen, all: Seen, path: Seq<char>)
    ensures
        s36::DISTINCT_MEMBER_IDS.1@[0].0@ == ""@,
        ruling_on(row, all, s36::DISTINCT_MEMBER_IDS.1@[0], path) matches Some(r) ==> (r.holds()
            <==> operand(row, all, "distinct"@) == Some(Truth::Int(3))),
{
    numerals_read_as_numbers();
    claims_of_equality_hold_where_facts_are_equal(row, all, s36::DISTINCT_MEMBER_IDS.1@[0], path);
}

/// What `MEMBER_LIST` demands, claim by claim.
pub proof fn member_list_demands(row: Seen, all: Seen, path: Seq<char>)
    ensures
        s36::MEMBER_LIST.1@[0].0@ == ""@,
        ruling_on(row, all, s36::MEMBER_LIST.1@[0], path) matches Some(r) ==> (r.holds()
            <==> operand(row, all, "len"@) == Some(Truth::Int(3))),
        s36::MEMBER_LIST.1@[1].0@ == ""@,
        ruling_on(row, all, s36::MEMBER_LIST.1@[1], path) matches Some(r) ==> (r.holds()
            <==> operand(row, all, "names"@) == wanted(row, all, "[m1\nm2\nm3"@)),
        s36::MEMBER_LIST.1@[2].0@ == "member"@,
        s36::MEMBER_LIST.1@[2].1@ == "? some urls"@,
        s36::MEMBER_LIST.1@[2].2@ == "urls"@,
        s36::MEMBER_LIST.1@[3].0@ == "member"@,
        ruling_on(row, all, s36::MEMBER_LIST.1@[3], path) matches Some(r) ==> (r.holds()
            <==> operand(row, all, "learner"@) == wanted(row, all, "false"@)),
{
    numerals_read_as_numbers();
    claims_of_equality_hold_where_facts_are_equal(row, all, s36::MEMBER_LIST.1@[0], path);
    claims_of_equality_hold_where_facts_are_equal(row, all, s36::MEMBER_LIST.1@[1], path);
    claims_of_equality_hold_where_facts_are_equal(row, all, s36::MEMBER_LIST.1@[3], path);
}

/// What `SAME_TERM` demands, claim by claim.
pub proof fn same_term_demands(row: Seen, all: Seen, path: Seq<char>)
    ensures
        s36::SAME_TERM.1@[0].0@ == ""@,
        ruling_on(row, all, s36::SAME_TERM.1@[0], path) matches Some(r) ==> (r.holds()
            <==> (operand(row, all, "term1"@) matches Some(Truth::Int(got)) && got >= 1)),
        s36::SAME_TERM.1@[1].0@ == ""@,
        ruling_on(row, all, s36::SAME_TERM.1@[1], path) matches Some(r) ==> (r.holds()
            <==> operand(row, all, "term2"@) == wanted(row, all, "term1"@)),
        s36::SAME_TERM.1@[2].0@ == ""@,
        ruling_on(row, all, s36::SAME_TERM.1@[2], path) matches Some(r) ==> (r.holds()
            <==> operand(row, all, "term3"@) == wanted(row, all, "term1"@)),
{
    numerals_read_as_numbers();
    claims_of_size_are_of_numbers(row, all, s36::SAME_TERM.1@[0], path);
    claims_of_equality_hold_where_facts_are_equal(row, all, s36::SAME_TERM.1@[1], path);
    claims_of_equality_hold_where_facts_are_equal(row, all, s36::SAME_TERM.1@[2], path);
}

/// What `QUORUM_IS_TWO` demands, claim by claim.
pub proof fn quorum_is_two_demands(row: Seen, all: Seen, path: Seq<char>)
    ensures
        s36::QUORUM_IS_TWO.1@[0].0@ == ""@,
        ruling_on(row, all, s36::QUORUM_IS_TWO.1@[0], path) matches Some(r) ==> (r.holds()
            <==> operand(row, all, "of_three"@) == Some(Truth::Int(2))),
        s36::QUORUM_IS_TWO.1@[1].0@ == ""@,
        ruling_on(row, all, s36::QUORUM_IS_TWO.1@[1], path) matches Some(r) ==> (r.holds()
            <==> operand(row, all, "of_five"@) == Some(Truth::Int(3))),
{
    numerals_read_as_numbers();
    claims_of_equality_hold_where_facts_are_equal(row, all, s36::QUORUM_IS_TWO.1@[0], path);
    claims_of_equality_hold_where_facts_are_equal(row, all, s36::QUORUM_IS_TWO.1@[1], path);
}

/// What `LEADER_IS_STABLE` demands, claim by claim.
pub proof fn leader_is_stable_demands(row: Seen, all: Seen, path: Seq<char>)
    ensures
        s36::LEADER_IS_STABLE.1@[0].0@ == ""@,
        s36::LEADER_IS_STABLE.1@[0].1@ == "? seen each first"@,
        s36::LEADER_IS_STABLE.1@[0].2@ == "seen"@,
{
}

/// What `FIVE_MEMBERS` demands, claim by claim.
pub proof fn five_members_demands(row: Seen, all: Seen, path: Seq<char>)
    ensures
        s36::FIVE_MEMBERS.1@[0].0@ == ""@,
        ruling_on(row, all, s36::FIVE_MEMBERS.1@[0], path) matches Some(r) ==> (r.holds()
            <==> operand(row, all, "len"@) == Some(Truth::Int(5))),
        s36::FIVE_MEMBERS.1@[1].0@ == ""@,
        s36::FIVE_MEMBERS.1@[1].1@ == "? leader < 5"@,
        s36::FIVE_MEMBERS.1@[1].2@ == "leader"@,
{
    numerals_read_as_numbers();
    claims_of_equality_hold_where_facts_are_equal(row, all, s36::FIVE_MEMBERS.1@[0], path);
}

/// What `WRITE_THROUGH_THE_LEADER` demands, claim by claim.
pub proof fn write_through_the_leader_demands(row: Seen, all: Seen, path: Seq<char>)
    ensures
        s37::WRITE_THROUGH_THE_LEADER.1@[0].0@ == "member"@,
        ruling_on(row, all, s37::WRITE_THROUGH_THE_LEADER.1@[0], path) matches Some(r) ==> (r.holds()
            <==> operand(row, all, "value"@) == wanted(row, all, "'v1"@)),
        s37::WRITE_THROUGH_THE_LEADER.1@[1].0@ == "member"@,
        ruling_on(row, all, s37::WRITE_THROUGH_THE_LEADER.1@[1], path) matches Some(r) ==> (r.holds()
            <==> (operand(row, all, "revision"@) matches Some(Truth::Int(got)) && wanted(row, all, "put"@) matches Some(
            Truth::Int(want),
        ) && got >= want)),
{
    claims_of_equality_hold_where_facts_are_equal(row, all, s37::WRITE_THROUGH_THE_LEADER.1@[0], path);
    claims_of_size_are_of_numbers(row, all, s37::WRITE_THROUGH_THE_LEADER.1@[1], path);
}

/// What `WRITE_THROUGH_A_FOLLOWER` demands, claim by claim.
pub proof fn write_through_a_follower_demands(row: Seen, all: Seen, path: Seq<char>)
    ensures
        s37::WRITE_THROUGH_A_FOLLOWER.1@[0].0@ == ""@,
        ruling_on(row, all, s37::WRITE_THROUGH_A_FOLLOWER.1@[0], path) matches Some(r) ==> (r.holds()
            <==> (operand(row, all, "put"@) matches Some(Truth::Int(got)) && got >= 1)),
        s37::WRITE_THROUGH_A_FOLLOWER.1@[1].0@ == "member"@,
        ruling_on(row, all, s37::WRITE_THROUGH_A_FOLLOWER.1@[1], path) matches Some(r) ==> (r.holds()
            <==> operand(row, all, "value"@) == wanted(row, all, "'v2"@)),
{
    numerals_read_as_numbers();
    claims_of_size_are_of_numbers(row, all, s37::WRITE_THROUGH_A_FOLLOWER.1@[0], path);
    claims_of_equality_hold_where_facts_are_equal(row, all, s37::WRITE_THROUGH_A_FOLLOWER.1@[1], path);
}

/// What `ONE_REVISION_SEQUENCE` demands, claim by claim.
pub proof fn one_revision_sequence_demands(row: Seen, all: Seen, path: Seq<char>)
    ensures
        s37::ONE_REVISION_SEQUENCE.1@[0].0@ == ""@,
        s37::ONE_REVISION_SEQUENCE.1@[0].1@ == "? rising revisions"@,
        s37::ONE_REVISION_SEQUENCE.1@[0].2@ == "revisions"@,
{
}

/// What `SAME_VALUE_EVERYWHERE` demands, claim by claim.
pub proof fn same_value_everywhere_demands(row: Seen, all: Seen, path: Seq<char>)
    ensures
        s37::SAME_VALUE_EVERYWHERE.1@[0].0@ == ""@,
        ruling_on(row, all, s37::SAME_VALUE_EVERYWHERE.1@[0], path) matches Some(r) ==> (r.holds()
            <==> operand(row, all, "values"@) == wanted(row, all, "[final\nfinal\nfinal"@)),
{
    claims_of_equality_hold_where_facts_are_equal(row, all, s37::SAME_VALUE_EVERYWHERE.1@[0], path);
}

/// What `A_DELETE_REPLICATES` demands, claim by claim.
pub proof fn a_delete_replicates_demands(row: Seen, all: Seen, path: Seq<char>)
    ensures
        s37::A_DELETE_REPLICATES.1@[0].0@ == ""@,
        ruling_on(row, all, s37::A_DELETE_REPLICATES.1@[0], path) matches Some(r) ==> (r.holds()
            <==> operand(row, all, "deleted"@) == Some(Truth::Int(1))),
        s37::A_DELETE_REPLICATES.1@[1].0@ == ""@,
        ruling_on(row, all, s37::A_DELETE_REPLICATES.1@[1], path) matches Some(r) ==> (r.holds()
            <==> (operand(row, all, "revision"@) matches Some(Truth::Int(got)) && got >= 1)),
{
    numerals_read_as_numbers();
    claims_of_equality_hold_where_facts_are_equal(row, all, s37::A_DELETE_REPLICATES.1@[0], path);
    claims_of_size_are_of_numbers(row, all, s37::A_DELETE_REPLICATES.1@[1], path);
}

/// What `A_ROTATING_BATCH` demands, claim by claim.
pub proof fn a_rotating_batch_demands(row: Seen, all: Seen, path: Seq<char>)
    ensures
        s37::A_ROTATING_BATCH.1@[0].0@ == "member"@,
        ruling_on(row, all, s37::A_ROTATING_BATCH.1@[0], path) matches Some(r) ==> (r.holds()
            <==> operand(row, all, "count"@) == Some(Truth::Int(9))),
        s37::A_ROTATING_BATCH.1@[1].0@ == "member"@,
        ruling_on(row, all, s37::A_ROTATING_BATCH.1@[1], path) matches Some(r) ==> (r.holds()
            <==> operand(row, all, "values"@) == wanted(
            row,
            all,
            "[v0\nv1\nv2\nv3\nv4\nv5\nv6\nv7\nv8"@,
        )),
{
    numerals_read_as_numbers();
    claims_of_equality_hold_where_facts_are_equal(row, all, s37::A_ROTATING_BATCH.1@[0], path);
    claims_of_equality_hold_where_facts_are_equal(row, all, s37::A_ROTATING_BATCH.1@[1], path);
}

/// What `THE_REVISION_IS_THE_CLUSTERS` demands, claim by claim.
pub proof fn the_revision_is_the_clusters_demands(row: Seen, all: Seen, path: Seq<char>)
    ensures
        s37::THE_REVISION_IS_THE_CLUSTERS.1@[0].0@ == "member"@,
        ruling_on(row, all, s37::THE_REVISION_IS_THE_CLUSTERS.1@[0], path) matches Some(r) ==> (r.holds()
            <==> (operand(row, all, "revision"@) matches Some(Truth::Int(got)) && wanted(row, all, "last"@) matches Some(
            Truth::Int(want),
        ) && got >= want)),
{
    claims_of_size_are_of_numbers(row, all, s37::THE_REVISION_IS_THE_CLUSTERS.1@[0], path);
}

/// What `REVISIONS_OF_THE_KEY_AGREE` demands, claim by claim.
pub proof fn revisions_of_the_key_agree_demands(row: Seen, all: Seen, path: Seq<char>)
    ensures
        s37::REVISIONS_OF_THE_KEY_AGREE.1@[0].0@ == "member"@,
        ruling_on(row, all, s37::REVISIONS_OF_THE_KEY_AGREE.1@[0], path) matches Some(r) ==> (r.holds()
            <==> operand(row, all, "create_revision"@) == wanted(row, all, "first"@)),
        s37::REVISIONS_OF_THE_KEY_AGREE.1@[1].0@ == "member"@,
        ruling_on(row, all, s37::REVISIONS_OF_THE_KEY_AGREE.1@[1], path) matches Some(r) ==> (r.holds()
            <==> operand(row, all, "mod_revision"@) == wanted(row, all, "second"@)),
        s37::REVISIONS_OF_THE_KEY_AGREE.1@[2].0@ == "member"@,
        ruling_on(row, all, s37::REVISIONS_OF_THE_KEY_AGREE.1@[2], path) matches Some(r) ==> (r.holds()
            <==> operand(row, all, "version"@) == Some(Truth::Int(2))),
{
    numerals_read_as_numbers();
    claims_of_equality_hold_where_facts_are_equal(row, all, s37::REVISIONS_OF_THE_KEY_AGREE.1@[0], path);
    claims_of_equality_hold_where_facts_are_equal(row, all, s37::REVISIONS_OF_THE_KEY_AGREE.1@[1], path);
    claims_of_equality_hold_where_facts_are_equal(row, all, s37::REVISIONS_OF_THE_KEY_AGREE.1@[2], path);
}

/// What `FORTY_ROTATING_WRITES` demands, claim by claim.
pub proof fn forty_rotating_writes_demands(row: Seen, all: Seen, path: Seq<char>)
    ensures
        s37::FORTY_ROTATING_WRITES.1@[0].0@ == ""@,
        s37::FORTY_ROTATING_WRITES.1@[0].1@ == "? rising revisions"@,
        s37::FORTY_ROTATING_WRITES.1@[0].2@ == "revisions"@,
        s37::FORTY_ROTATING_WRITES.1@[1].0@ == "member"@,
        ruling_on(row, all, s37::FORTY_ROTATING_WRITES.1@[1], path) matches Some(r) ==> (r.holds()
            <==> operand(row, all, "value"@) == wanted(row, all, "'v39"@)),
        s37::FORTY_ROTATING_WRITES.1@[2].0@ == "member"@,
        ruling_on(row, all, s37::FORTY_ROTATING_WRITES.1@[2], path) matches Some(r) ==> (r.holds()
            <==> operand(row, all, "version"@) == Some(Truth::Int(40))),
        s37::FORTY_ROTATING_WRITES.1@[3].0@ == "member"@,
        ruling_on(row, all, s37::FORTY_ROTATING_WRITES.1@[3], path) matches Some(r) ==> (r.holds()
            <==> operand(row, all, "mod_revision"@) == wanted(row, all, "last"@)),
{
    numerals_read_as_numbers();
    claims_of_equality_hold_where_facts_are_equal(row, all, s37::FORTY_ROTATING_WRITES.1@[1], path);
    claims_of_equality_hold_where_facts_are_equal(row, all, s37::FORTY_ROTATING_WRITES.1@[2], path);
    claims_of_equality_hold_where_facts_are_equal(row, all, s37::FORTY_ROTATING_WRITES.1@[3], path);
}

/// What `THE_MAJORITY_ACCEPTS_WRITES` demands, claim by claim.
pub proof fn the_majority_accepts_writes_demands(row: Seen, all: Seen, path: Seq<char>)
    ensures
        s41::THE_MAJORITY_ACCEPTS_WRITES.1@[0].0@ == "write"@,
        ruling_on(row, all, s41::THE_MAJORITY_ACCEPTS_WRITES.1@[0], path) matches Some(r) ==> (r.holds()
            <==> operand(row, all, "value"@) == wanted(row, all, "wrote"@)),
        s41::THE_MAJORITY_ACCEPTS_WRITES.1@[1].0@ == ""@,
        ruling_on(row, all, s41::THE_MAJORITY_ACCEPTS_WRITES.1@[1], path) matches Some(r) ==> (r.holds()
            <==> operand(row, all, "of_three"@) == Some(Truth::Int(2))),
{
    numerals_read_as_numbers();
    claims_of_equality_hold_where_facts_are_equal(row, all, s41::THE_MAJORITY_ACCEPTS_WRITES.1@[0], path);
    claims_of_equality_hold_where_facts_are_equal(row, all, s41::THE_MAJORITY_ACCEPTS_WRITES.1@[1], path);
}

/// What `THE_MAJORITY_ELECTS_ITS_OWN` demands, claim by claim.
pub proof fn the_majority_elects_its_own_demands(row: Seen, all: Seen, path: Seq<char>)
    ensures
        s41::THE_MAJORITY_ELECTS_ITS_OWN.1@[0].0@ == ""@,
        ruling_on(row, all, s41::THE_MAJORITY_ELECTS_ITS_OWN.1@[0], path) matches Some(r) ==> (r.holds()
            <==> operand(row, all, "new_leader"@) != wanted(row, all, "leader"@)),
        s41::THE_MAJORITY_ELECTS_ITS_OWN.1@[1].0@ == ""@,
        s41::THE_MAJORITY_ELECTS_ITS_OWN.1@[1].1@ == "? new_leader in rest"@,
        s41::THE_MAJORITY_ELECTS_ITS_OWN.1@[1].2@ == "new_leader+1"@,
        s41::THE_MAJORITY_ELECTS_ITS_OWN.1@[2].0@ == ""@,
        s41::THE_MAJORITY_ELECTS_ITS_OWN.1@[2].1@ == "? term > old_term"@,
        s41::THE_MAJORITY_ELECTS_ITS_OWN.1@[2].2@ == "old_term term"@,
        s41::THE_MAJORITY_ELECTS_ITS_OWN.1@[3].0@ == ""@,
        ruling_on(row, all, s41::THE_MAJORITY_ELECTS_ITS_OWN.1@[3], path) matches Some(r) ==> (r.holds()
            <==> (operand(row, all, "put"@) matches Some(Truth::Int(got)) && got >= 1)),
{
    numerals_read_as_numbers();
    claims_of_equality_hold_where_facts_are_equal(row, all, s41::THE_MAJORITY_ELECTS_ITS_OWN.1@[0], path);
    claims_of_size_are_of_numbers(row, all, s41::THE_MAJORITY_ELECTS_ITS_OWN.1@[3], path);
}

/// What `THE_REVISION_KEEPS_ADVANCING` demands, claim by claim.
pub proof fn the_revision_keeps_advancing_demands(row: Seen, all: Seen, path: Seq<char>)
    ensures
        s41::THE_REVISION_KEEPS_ADVANCING.1@[0].0@ == ""@,
        s41::THE_REVISION_KEEPS_ADVANCING.1@[0].1@ == "? rising revisions"@,
        s41::THE_REVISION_KEEPS_ADVANCING.1@[0].2@ == "revisions"@,
        s41::THE_REVISION_KEEPS_ADVANCING.1@[1].0@ == "member"@,
        ruling_on(row, all, s41::THE_REVISION_KEEPS_ADVANCING.1@[1], path) matches Some(r) ==> (r.holds()
            <==> operand(row, all, "count"@) == Some(Truth::Int(10))),
{
    numerals_read_as_numbers();
    claims_of_equality_hold_where_facts_are_equal(row, all, s41::THE_REVISION_KEEPS_ADVANCING.1@[1], path);
}

/// What `READS_SEE_EVERY_WRITE` demands, claim by claim.
pub proof fn reads_see_every_write_demands(row: Seen, all: Seen, path: Seq<char>)
    ensures
        s41::READS_SEE_EVERY_WRITE.1@[0].0@ == "round"@,
        ruling_on(row, all, s41::READS_SEE_EVERY_WRITE.1@[0], path) matches Some(r) ==> (r.holds()
            <==> operand(row, all, "value"@) == wanted(row, all, "wrote"@)),
{
    claims_of_equality_hold_where_facts_are_equal(row, all, s41::READS_SEE_EVERY_WRITE.1@[0], path);
}

/// What `INVISIBLE_TO_THE_MINORITY` demands, claim by claim.
pub proof fn invisible_to_the_minority_demands(row: Seen, all: Seen, path: Seq<char>)
    ensures
        s41::INVISIBLE_TO_THE_MINORITY.1@[0].0@ == ""@,
        ruling_on(row, all, s41::INVISIBLE_TO_THE_MINORITY.1@[0], path) matches Some(r) ==> (r.holds()
            <==> operand(row, all, "count"@) == Some(Truth::Int(0))),
        s41::INVISIBLE_TO_THE_MINORITY.1@[1].0@ == ""@,
        ruling_on(row, all, s41::INVISIBLE_TO_THE_MINORITY.1@[1], path) matches Some(r) ==> (r.holds()
            <==> operand(row, all, "after"@) == wanted(row, all, "before"@)),
        s41::INVISIBLE_TO_THE_MINORITY.1@[2].0@ == ""@,
        s41::INVISIBLE_TO_THE_MINORITY.1@[2].1@ == "? put > after"@,
        s41::INVISIBLE_TO_THE_MINORITY.1@[2].2@ == "put after"@,
{
    numerals_read_as_numbers();
    claims_of_equality_hold_where_facts_are_equal(row, all, s41::INVISIBLE_TO_THE_MINORITY.1@[0], path);
    claims_of_equality_hold_where_facts_are_equal(row, all, s41::INVISIBLE_TO_THE_MINORITY.1@[1], path);
}

/// What `THE_MAJORITY_AGREES_ON_ITS_LEADER` demands, claim by claim.
pub proof fn the_majority_agrees_on_its_leader_demands(row: Seen, all: Seen, path: Seq<char>)
    ensures
        s41::THE_MAJORITY_AGREES_ON_ITS_LEADER.1@[0].0@ == "member"@,
        ruling_on(row, all, s41::THE_MAJORITY_AGREES_ON_ITS_LEADER.1@[0], path) matches Some(r) ==> (r.holds()
            <==> operand(row, all, "named"@) == wanted(row, all, "leader_id"@)),
        s41::THE_MAJORITY_AGREES_ON_ITS_LEADER.1@[1].0@ == "member"@,
        ruling_on(row, all, s41::THE_MAJORITY_AGREES_ON_ITS_LEADER.1@[1], path) matches Some(r) ==> (r.holds()
            <==> operand(row, all, "term"@) == wanted(row, all, "first_term"@)),
{
    claims_of_equality_hold_where_facts_are_equal(row, all, s41::THE_MAJORITY_AGREES_ON_ITS_LEADER.1@[0], path);
    claims_of_equality_hold_where_facts_are_equal(row, all, s41::THE_MAJORITY_AGREES_ON_ITS_LEADER.1@[1], path);
}

/// What `NO_RESTART_NEEDED` demands, claim by claim.
pub proof fn no_restart_needed_demands(row: Seen, all: Seen, path: Seq<char>)
    ensures
        s41::NO_RESTART_NEEDED.1@[0].0@ == ""@,
        s41::NO_RESTART_NEEDED.1@[0].1@ == "? rising revisions"@,
        s41::NO_RESTART_NEEDED.1@[0].2@ == "revisions"@,
        s41::NO_RESTART_NEEDED.1@[1].0@ == ""@,
        s41::NO_RESTART_NEEDED.1@[1].1@ == "? leaders each serving"@,
        s41::NO_RESTART_NEEDED.1@[1].2@ == "leaders"@,
        s41::NO_RESTART_NEEDED.1@[2].0@ == ""@,
        ruling_on(row, all, s41::NO_RESTART_NEEDED.1@[2], path) matches Some(r) ==> (r.holds()
            <==> operand(row, all, "running"@) == wanted(row, all, "size"@)),
{
    claims_of_equality_hold_where_facts_are_equal(row, all, s41::NO_RESTART_NEEDED.1@[2], path);
}

/// What `THREE_OF_FIVE_KEEP_SERVING` demands, claim by claim.
pub proof fn three_of_five_keep_serving_demands(row: Seen, all: Seen, path: Seq<char>)
    ensures
        s41::THREE_OF_FIVE_KEEP_SERVING.1@[0].0@ == ""@,
        ruling_on(row, all, s41::THREE_OF_FIVE_KEEP_SERVING.1@[0], path) matches Some(r) ==> (r.holds()
            <==> operand(row, all, "of_five"@) == Some(Truth::Int(3))),
        s41::THREE_OF_FIVE_KEEP_SERVING.1@[1].0@ == ""@,
        s41::THREE_OF_FIVE_KEEP_SERVING.1@[1].1@ == "? rising revisions"@,
        s41::THREE_OF_FIVE_KEEP_SERVING.1@[1].2@ == "revisions"@,
        s41::THREE_OF_FIVE_KEEP_SERVING.1@[2].0@ == "served"@,
        ruling_on(row, all, s41::THREE_OF_FIVE_KEEP_SERVING.1@[2], path) matches Some(r) ==> (r.holds()
            <==> operand(row, all, "count"@) == Some(Truth::Int(6))),
        s41::THREE_OF_FIVE_KEEP_SERVING.1@[3].0@ == "cut_off"@,
        ruling_on(row, all, s41::THREE_OF_FIVE_KEEP_SERVING.1@[3], path) matches Some(r) ==> (r.holds()
            <==> operand(row, all, "count"@) == Some(Truth::Int(0))),
{
    numerals_read_as_numbers();
    claims_of_equality_hold_where_facts_are_equal(row, all, s41::THREE_OF_FIVE_KEEP_SERVING.1@[0], path);
    claims_of_equality_hold_where_facts_are_equal(row, all, s41::THREE_OF_FIVE_KEEP_SERVING.1@[2], path);
    claims_of_equality_hold_where_facts_are_equal(row, all, s41::THREE_OF_FIVE_KEEP_SERVING.1@[3], path);
}

/// What `A_NEW_LEADER_APPEARS` demands, claim by claim.
pub proof fn a_new_leader_appears_demands(row: Seen, all: Seen, path: Seq<char>)
    ensures
        s43::A_NEW_LEADER_APPEARS.1@[0].0@ == ""@,
        ruling_on(row, all, s43::A_NEW_LEADER_APPEARS.1@[0], path) matches Some(r) ==> (r.holds()
            <==> operand(row, all, "new_leader"@) != wanted(row, all, "leader"@)),
        s43::A_NEW_LEADER_APPEARS.1@[1].0@ == ""@,
        s43::A_NEW_LEADER_APPEARS.1@[1].1@ == "? new_leader in survivors"@,
        s43::A_NEW_LEADER_APPEARS.1@[1].2@ == "new_leader+1"@,
        s43::A_NEW_LEADER_APPEARS.1@[2].0@ == ""@,
        ruling_on(row, all, s43::A_NEW_LEADER_APPEARS.1@[2], path) matches Some(r) ==> (r.holds()
            <==> (operand(row, all, "took"@) matches Some(Truth::Int(got)) && got <= 20000)),
        s43::A_NEW_LEADER_APPEARS.1@[3].0@ == ""@,
        ruling_on(row, all, s43::A_NEW_LEADER_APPEARS.1@[3], path) matches Some(r) ==> (r.holds()
            <==> operand(row, all, "running"@) == Some(Truth::Int(2))),
        s43::A_NEW_LEADER_APPEARS.1@[4].0@ == ""@,
        ruling_on(row, all, s43::A_NEW_LEADER_APPEARS.1@[4], path) matches Some(r) ==> (r.holds()
            <==> operand(row, all, "of_three"@) == Some(Truth::Int(2))),
{
    numerals_read_as_numbers();
    claims_of_equality_hold_where_facts_are_equal(row, all, s43::A_NEW_LEADER_APPEARS.1@[0], path);
    claims_of_size_are_of_numbers(row, all, s43::A_NEW_LEADER_APPEARS.1@[2], path);
    claims_of_equality_hold_where_facts_are_equal(row, all, s43::A_NEW_LEADER_APPEARS.1@[3], path);
    claims_of_equality_hold_where_facts_are_equal(row, all, s43::A_NEW_LEADER_APPEARS.1@[4], path);
}

/// What `THE_TERM_GOES_UP` demands, claim by claim.
pub proof fn the_term_goes_up_demands(row: Seen, all: Seen, path: Seq<char>)
    ensures
        s43::THE_TERM_GOES_UP.1@[0].0@ == "member"@,
        s43::THE_TERM_GOES_UP.1@[0].1@ == "? term > old_term"@,
        s43::THE_TERM_GOES_UP.1@[0].2@ == "old_term term"@,
        s43::THE_TERM_GOES_UP.1@[1].0@ == ""@,
        ruling_on(row, all, s43::THE_TERM_GOES_UP.1@[1], path) matches Some(r) ==> (r.holds()
            <==> operand(row, all, "second_term"@) == wanted(row, all, "first_term"@)),
{
    claims_of_equality_hold_where_facts_are_equal(row, all, s43::THE_TERM_GOES_UP.1@[1], path);
}

/// What `THE_SURVIVORS_AGREE` demands, claim by claim.
pub proof fn the_survivors_agree_demands(row: Seen, all: Seen, path: Seq<char>)
    ensures
        s43::THE_SURVIVORS_AGREE.1@[0].0@ == "poll"@,
        s43::THE_SURVIVORS_AGREE.1@[0].1@ == "? named each new_id"@,
        s43::THE_SURVIVORS_AGREE.1@[0].2@ == "named"@,
        s43::THE_SURVIVORS_AGREE.1@[1].0@ == ""@,
        ruling_on(row, all, s43::THE_SURVIVORS_AGREE.1@[1], path) matches Some(r) ==> (r.holds()
            <==> operand(row, all, "len"@) == wanted(row, all, "size"@)),
{
    claims_of_equality_hold_where_facts_are_equal(row, all, s43::THE_SURVIVORS_AGREE.1@[1], path);
}

/// What `WRITES_RESUME` demands, claim by claim.
pub proof fn writes_resume_demands(row: Seen, all: Seen, path: Seq<char>)
    ensures
        s43::WRITES_RESUME.1@[0].0@ == ""@,
        ruling_on(row, all, s43::WRITES_RESUME.1@[0], path) matches Some(r) ==> (r.holds()
            <==> (operand(row, all, "first"@) matches Some(Truth::Int(got)) && wanted(row, all, "before+1"@) matches Some(
            Truth::Int(want),
        ) && got >= want)),
        s43::WRITES_RESUME.1@[1].0@ == ""@,
        s43::WRITES_RESUME.1@[1].1@ == "? second > first"@,
        s43::WRITES_RESUME.1@[1].2@ == "first second"@,
        s43::WRITES_RESUME.1@[2].0@ == "member"@,
        ruling_on(row, all, s43::WRITES_RESUME.1@[2], path) matches Some(r) ==> (r.holds()
            <==> operand(row, all, "value"@) == wanted(row, all, "'after-1"@)),
{
    claims_of_size_are_of_numbers(row, all, s43::WRITES_RESUME.1@[0], path);
    claims_of_equality_hold_where_facts_are_equal(row, all, s43::WRITES_RESUME.1@[2], path);
}

/// What `NOTHING_ACKNOWLEDGED_IS_LOST` demands, claim by claim.
pub proof fn nothing_acknowledged_is_lost_demands(row: Seen, all: Seen, path: Seq<char>)
    ensures
        s43::NOTHING_ACKNOWLEDGED_IS_LOST.1@[0].0@ == ""@,
        ruling_on(row, all, s43::NOTHING_ACKNOWLEDGED_IS_LOST.1@[0], path) matches Some(r) ==> (r.holds()
            <==> operand(row, all, "count"@) == Some(Truth::Int(12))),
        s43::NOTHING_ACKNOWLEDGED_IS_LOST.1@[1].0@ == ""@,
        ruling_on(row, all, s43::NOTHING_ACKNOWLEDGED_IS_LOST.1@[1], path) matches Some(r) ==> (r.holds()
            <==> operand(row, all, "values"@) == wanted(
            row,
            all,
            "[v0\nv1\nv2\nv3\nv4\nv5\nv6\nv7\nv8\nv9\nv10\nv11"@,
        )),
        s43::NOTHING_ACKNOWLEDGED_IS_LOST.1@[2].0@ == ""@,
        ruling_on(row, all, s43::NOTHING_ACKNOWLEDGED_IS_LOST.1@[2], path) matches Some(r) ==> (r.holds()
            <==> (operand(row, all, "revision"@) matches Some(Truth::Int(got)) && wanted(row, all, "last"@) matches Some(
            Truth::Int(want),
        ) && got >= want)),
{
    numerals_read_as_numbers();
    claims_of_equality_hold_where_facts_are_equal(row, all, s43::NOTHING_ACKNOWLEDGED_IS_LOST.1@[0], path);
    claims_of_equality_hold_where_facts_are_equal(row, all, s43::NOTHING_ACKNOWLEDGED_IS_LOST.1@[1], path);
    claims_of_size_are_of_numbers(row, all, s43::NOTHING_ACKNOWLEDGED_IS_LOST.1@[2], path);
}

/// What `THE_DEAD_MEMBER_REJOINS` demands, claim by claim.
pub proof fn the_dead_member_rejoins_demands(row: Seen, all: Seen, path: Seq<char>)
    ensures
        s43::THE_DEAD_MEMBER_REJOINS.1@[0].0@ == ""@,
        ruling_on(row, all, s43::THE_DEAD_MEMBER_REJOINS.1@[0], path) matches Some(r) ==> (r.holds()
            <==> operand(row, all, "running"@) == wanted(row, all, "size"@)),
        s43::THE_DEAD_MEMBER_REJOINS.1@[1].0@ == ""@,
        ruling_on(row, all, s43::THE_DEAD_MEMBER_REJOINS.1@[1], path) matches Some(r) ==> (r.holds()
            <==> operand(row, all, "named"@) == wanted(row, all, "settled_id"@)),
        s43::THE_DEAD_MEMBER_REJOINS.1@[2].0@ == ""@,
        ruling_on(row, all, s43::THE_DEAD_MEMBER_REJOINS.1@[2], path) matches Some(r) ==> (r.holds()
            <==> (operand(row, all, "revision"@) matches Some(Truth::Int(got)) && wanted(row, all, "put"@) matches Some(
            Truth::Int(want),
        ) && got >= want)),
{
    claims_of_equality_hold_where_facts_are_equal(row, all, s43::THE_DEAD_MEMBER_REJOINS.1@[0], path);
    claims_of_equality_hold_where_facts_are_equal(row, all, s43::THE_DEAD_MEMBER_REJOINS.1@[1], path);
    claims_of_size_are_of_numbers(row, all, s43::THE_DEAD_MEMBER_REJOINS.1@[2], path);
}

/// What `KILLING_A_FOLLOWER_CHANGES_NOTHING` demands, claim by claim.
pub proof fn killing_a_follower_changes_nothing_demands(row: Seen, all: Seen, path: Seq<char>)
    ensures
        s43::KILLING_A_FOLLOWER_CHANGES_NOTHING.1@[0].0@ == ""@,
        s43::KILLING_A_FOLLOWER_CHANGES_NOTHING.1@[0].1@ == "? leaders each leader"@,
        s43::KILLING_A_FOLLOWER_CHANGES_NOTHING.1@[0].2@ == "leaders"@,
        s43::KILLING_A_FOLLOWER_CHANGES_NOTHING.1@[1].0@ == ""@,
        ruling_on(row, all, s43::KILLING_A_FOLLOWER_CHANGES_NOTHING.1@[1], path) matches Some(r) ==> (r.holds()
            <==> operand(row, all, "term"@) == wanted(row, all, "old_term"@)),
        s43::KILLING_A_FOLLOWER_CHANGES_NOTHING.1@[2].0@ == "write"@,
        s43::KILLING_A_FOLLOWER_CHANGES_NOTHING.1@[2].1@ == "? next > last"@,
        s43::KILLING_A_FOLLOWER_CHANGES_NOTHING.1@[2].2@ == "last next"@,
        s43::KILLING_A_FOLLOWER_CHANGES_NOTHING.1@[3].0@ == ""@,
        ruling_on(row, all, s43::KILLING_A_FOLLOWER_CHANGES_NOTHING.1@[3], path) matches Some(r) ==> (r.holds()
            <==> operand(row, all, "running"@) == Some(Truth::Int(2))),
{
    numerals_read_as_numbers();
    claims_of_equality_hold_where_facts_are_equal(row, all, s43::KILLING_A_FOLLOWER_CHANGES_NOTHING.1@[1], path);
    claims_of_equality_hold_where_facts_are_equal(row, all, s43::KILLING_A_FOLLOWER_CHANGES_NOTHING.1@[3], path);
}

/// What `FIVE_MEMBERS_SURVIVE_TWO_KILLS` demands, claim by claim.
pub proof fn five_members_survive_two_kills_demands(row: Seen, all: Seen, path: Seq<char>)
    ensures
        s43::FIVE_MEMBERS_SURVIVE_TWO_KILLS.1@[0].0@ == ""@,
        ruling_on(row, all, s43::FIVE_MEMBERS_SURVIVE_TWO_KILLS.1@[0], path) matches Some(r) ==> (r.holds()
            <==> operand(row, all, "of_five"@) == Some(Truth::Int(3))),
        s43::FIVE_MEMBERS_SURVIVE_TWO_KILLS.1@[1].0@ == ""@,
        ruling_on(row, all, s43::FIVE_MEMBERS_SURVIVE_TWO_KILLS.1@[1], path) matches Some(r) ==> (r.holds()
            <==> operand(row, all, "running"@) == Some(Truth::Int(3))),
        s43::FIVE_MEMBERS_SURVIVE_TWO_KILLS.1@[2].0@ == ""@,
        s43::FIVE_MEMBERS_SURVIVE_TWO_KILLS.1@[2].1@ == "? final_leader in survivors"@,
        s43::FIVE_MEMBERS_SURVIVE_TWO_KILLS.1@[2].2@ == "final_leader+1"@,
        s43::FIVE_MEMBERS_SURVIVE_TWO_KILLS.1@[3].0@ == "member"@,
        ruling_on(row, all, s43::FIVE_MEMBERS_SURVIVE_TWO_KILLS.1@[3], path) matches Some(r) ==> (r.holds()
            <==> operand(row, all, "value"@) == wanted(row, all, "'three-left"@)),
        s43::FIVE_MEMBERS_SURVIVE_TWO_KILLS.1@[4].0@ == "member"@,
        ruling_on(row, all, s43::FIVE_MEMBERS_SURVIVE_TWO_KILLS.1@[4], path) matches Some(r) ==> (r.holds()
            <==> (operand(row, all, "revision"@) matches Some(Truth::Int(got)) && wanted(row, all, "put"@) matches Some(
            Truth::Int(want),
        ) && got >= want)),
{
    numerals_read_as_numbers();
    claims_of_equality_hold_where_facts_are_equal(row, all, s43::FIVE_MEMBERS_SURVIVE_TWO_KILLS.1@[0], path);
    claims_of_equality_hold_where_facts_are_equal(row, all, s43::FIVE_MEMBERS_SURVIVE_TWO_KILLS.1@[1], path);
    claims_of_equality_hold_where_facts_are_equal(row, all, s43::FIVE_MEMBERS_SURVIVE_TWO_KILLS.1@[3], path);
    claims_of_size_are_of_numbers(row, all, s43::FIVE_MEMBERS_SURVIVE_TWO_KILLS.1@[4], path);
}

/// What `ONE_ACKNOWLEDGED_WRITE` demands, claim by claim.
pub proof fn one_acknowledged_write_demands(row: Seen, all: Seen, path: Seq<char>)
    ensures
        s44::ONE_ACKNOWLEDGED_WRITE.1@[2].0@ == ""@,
        ruling_on(row, all, s44::ONE_ACKNOWLEDGED_WRITE.1@[2], path) matches Some(r) ==> (r.holds()
            <==> operand(row, all, "value"@) == wanted(row, all, "'acknowledged"@)),
        s44::ONE_ACKNOWLEDGED_WRITE.1@[3].0@ == ""@,
        ruling_on(row, all, s44::ONE_ACKNOWLEDGED_WRITE.1@[3], path) matches Some(r) ==> (r.holds()
            <==> (operand(row, all, "put"@) matches Some(Truth::Int(got)) && got >= 1)),
{
    numerals_read_as_numbers();
    claims_of_equality_hold_where_facts_are_equal(row, all, s44::ONE_ACKNOWLEDGED_WRITE.1@[2], path);
    claims_of_size_are_of_numbers(row, all, s44::ONE_ACKNOWLEDGED_WRITE.1@[3], path);
}

/// What `A_HUNDRED_ACKNOWLEDGED_WRITES` demands, claim by claim.
pub proof fn a_hundred_acknowledged_writes_demands(row: Seen, all: Seen, path: Seq<char>)
    ensures
        s44::A_HUNDRED_ACKNOWLEDGED_WRITES.1@[3].0@ == ""@,
        ruling_on(row, all, s44::A_HUNDRED_ACKNOWLEDGED_WRITES.1@[3], path) matches Some(r) ==> (r.holds()
            <==> operand(row, all, "acknowledged"@) == Some(Truth::Int(100))),
        s44::A_HUNDRED_ACKNOWLEDGED_WRITES.1@[4].0@ == ""@,
        s44::A_HUNDRED_ACKNOWLEDGED_WRITES.1@[4].1@ == "? empty lost"@,
        s44::A_HUNDRED_ACKNOWLEDGED_WRITES.1@[4].2@ == "lost"@,
{
    numerals_read_as_numbers();
    claims_of_equality_hold_where_facts_are_equal(row, all, s44::A_HUNDRED_ACKNOWLEDGED_WRITES.1@[3], path);
}

/// What `ACKNOWLEDGED_THROUGH_A_FOLLOWER` demands, claim by claim.
pub proof fn acknowledged_through_a_follower_demands(row: Seen, all: Seen, path: Seq<char>)
    ensures
        s44::ACKNOWLEDGED_THROUGH_A_FOLLOWER.1@[2].0@ == ""@,
        ruling_on(row, all, s44::ACKNOWLEDGED_THROUGH_A_FOLLOWER.1@[2], path) matches Some(r) ==> (r.holds()
            <==> operand(row, all, "acknowledged"@) == Some(Truth::Int(30))),
        s44::ACKNOWLEDGED_THROUGH_A_FOLLOWER.1@[3].0@ == ""@,
        s44::ACKNOWLEDGED_THROUGH_A_FOLLOWER.1@[3].1@ == "? empty lost"@,
        s44::ACKNOWLEDGED_THROUGH_A_FOLLOWER.1@[3].2@ == "lost"@,
{
    numerals_read_as_numbers();
    claims_of_equality_hold_where_facts_are_equal(row, all, s44::ACKNOWLEDGED_THROUGH_A_FOLLOWER.1@[2], path);
}

/// What `THE_REVISION_SURVIVES` demands, claim by claim.
pub proof fn the_revision_survives_demands(row: Seen, all: Seen, path: Seq<char>)
    ensures
        s44::THE_REVISION_SURVIVES.1@[2].0@ == ""@,
        ruling_on(row, all, s44::THE_REVISION_SURVIVES.1@[2], path) matches Some(r) ==> (r.holds()
            <==> (operand(row, all, "second"@) matches Some(Truth::Int(got)) && wanted(row, all, "first+1"@) matches Some(
            Truth::Int(want),
        ) && got >= want)),
        s44::THE_REVISION_SURVIVES.1@[3].0@ == ""@,
        ruling_on(row, all, s44::THE_REVISION_SURVIVES.1@[3], path) matches Some(r) ==> (r.holds()
            <==> operand(row, all, "old.value"@) == wanted(row, all, "'one"@)),
        s44::THE_REVISION_SURVIVES.1@[4].0@ == ""@,
        ruling_on(row, all, s44::THE_REVISION_SURVIVES.1@[4], path) matches Some(r) ==> (r.holds()
            <==> operand(row, all, "now.value"@) == wanted(row, all, "'two"@)),
        s44::THE_REVISION_SURVIVES.1@[5].0@ == ""@,
        ruling_on(row, all, s44::THE_REVISION_SURVIVES.1@[5], path) matches Some(r) ==> (r.holds()
            <==> operand(row, all, "now.mod_revision"@) == wanted(row, all, "second"@)),
{
    claims_of_size_are_of_numbers(row, all, s44::THE_REVISION_SURVIVES.1@[2], path);
    claims_of_equality_hold_where_facts_are_equal(row, all, s44::THE_REVISION_SURVIVES.1@[3], path);
    claims_of_equality_hold_where_facts_are_equal(row, all, s44::THE_REVISION_SURVIVES.1@[4], path);
    claims_of_equality_hold_where_facts_are_equal(row, all, s44::THE_REVISION_SURVIVES.1@[5], path);
}

/// What `A_KILL_DURING_A_BURST` demands, claim by claim.
pub proof fn a_kill_during_a_burst_demands(row: Seen, all: Seen, path: Seq<char>)
    ensures
        s44::A_KILL_DURING_A_BURST.1@[3].0@ == ""@,
        ruling_on(row, all, s44::A_KILL_DURING_A_BURST.1@[3], path) matches Some(r) ==> (r.holds()
            <==> (operand(row, all, "acknowledged"@) matches Some(Truth::Int(got)) && got >= 20)),
        s44::A_KILL_DURING_A_BURST.1@[4].0@ == ""@,
        s44::A_KILL_DURING_A_BURST.1@[4].1@ == "? empty lost"@,
        s44::A_KILL_DURING_A_BURST.1@[4].2@ == "lost"@,
{
    numerals_read_as_numbers();
    claims_of_size_are_of_numbers(row, all, s44::A_KILL_DURING_A_BURST.1@[3], path);
}

/// What `SURVIVORS_AGREE` demands, claim by claim.
pub proof fn survivors_agree_demands(row: Seen, all: Seen, path: Seq<char>)
    ensures
        s44::SURVIVORS_AGREE.1@[2].0@ == ""@,
        ruling_on(row, all, s44::SURVIVORS_AGREE.1@[2], path) matches Some(r) ==> (r.holds()
            <==> (operand(row, all, "survivors"@) matches Some(Truth::Int(got)) && got >= 2)),
        s44::SURVIVORS_AGREE.1@[3].0@ == "other"@,
        s44::SURVIVORS_AGREE.1@[3].1@ == "? pairs = first"@,
        s44::SURVIVORS_AGREE.1@[3].2@ == "count first_count"@,
{
    numerals_read_as_numbers();
    claims_of_size_are_of_numbers(row, all, s44::SURVIVORS_AGREE.1@[2], path);
}

/// What `A_DELETE_IS_DURABLE` demands, claim by claim.
pub proof fn a_delete_is_durable_demands(row: Seen, all: Seen, path: Seq<char>)
    ensures
        s44::A_DELETE_IS_DURABLE.1@[2].0@ == ""@,
        ruling_on(row, all, s44::A_DELETE_IS_DURABLE.1@[2], path) matches Some(r) ==> (r.holds()
            <==> operand(row, all, "deleted"@) == Some(Truth::Int(1))),
        s44::A_DELETE_IS_DURABLE.1@[3].0@ == ""@,
        ruling_on(row, all, s44::A_DELETE_IS_DURABLE.1@[3], path) matches Some(r) ==> (r.holds()
            <==> operand(row, all, "gone"@) == wanted(row, all, "null"@)),
        s44::A_DELETE_IS_DURABLE.1@[4].0@ == ""@,
        ruling_on(row, all, s44::A_DELETE_IS_DURABLE.1@[4], path) matches Some(r) ==> (r.holds()
            <==> operand(row, all, "kept"@) == wanted(row, all, "'stays"@)),
{
    numerals_read_as_numbers();
    claims_of_equality_hold_where_facts_are_equal(row, all, s44::A_DELETE_IS_DURABLE.1@[2], path);
    claims_of_equality_hold_where_facts_are_equal(row, all, s44::A_DELETE_IS_DURABLE.1@[3], path);
    claims_of_equality_hold_where_facts_are_equal(row, all, s44::A_DELETE_IS_DURABLE.1@[4], path);
}

/// What `FIVE_MEMBERS_TWO_KILLS` demands, claim by claim.
pub proof fn five_members_two_kills_demands(row: Seen, all: Seen, path: Seq<char>)
    ensures
        s44::FIVE_MEMBERS_TWO_KILLS.1@[2].0@ == ""@,
        ruling_on(row, all, s44::FIVE_MEMBERS_TWO_KILLS.1@[2], path) matches Some(r) ==> (r.holds()
            <==> operand(row, all, "acknowledged"@) == Some(Truth::Int(40))),
        s44::FIVE_MEMBERS_TWO_KILLS.1@[3].0@ == ""@,
        ruling_on(row, all, s44::FIVE_MEMBERS_TWO_KILLS.1@[3], path) matches Some(r) ==> (r.holds()
            <==> operand(row, all, "running"@) == Some(Truth::Int(3))),
        s44::FIVE_MEMBERS_TWO_KILLS.1@[4].0@ == ""@,
        s44::FIVE_MEMBERS_TWO_KILLS.1@[4].1@ == "? empty lost"@,
        s44::FIVE_MEMBERS_TWO_KILLS.1@[4].2@ == "lost"@,
{
    numerals_read_as_numbers();
    claims_of_equality_hold_where_facts_are_equal(row, all, s44::FIVE_MEMBERS_TWO_KILLS.1@[2], path);
    claims_of_equality_hold_where_facts_are_equal(row, all, s44::FIVE_MEMBERS_TWO_KILLS.1@[3], path);
}

/// What `THE_LIST_SHRINKS` demands, claim by claim.
pub proof fn the_list_shrinks_demands(row: Seen, all: Seen, path: Seq<char>)
    ensures
        s49::THE_LIST_SHRINKS.1@[2].0@ == ""@,
        ruling_on(row, all, s49::THE_LIST_SHRINKS.1@[2], path) matches Some(r) ==> (r.holds()
            <==> operand(row, all, "len"@) == Some(Truth::Int(2))),
        s49::THE_LIST_SHRINKS.1@[3].0@ == ""@,
        ruling_on(row, all, s49::THE_LIST_SHRINKS.1@[3], path) matches Some(r) ==> (r.holds()
            <==> operand(row, all, "from_survivor"@) == wanted(row, all, "from_leader"@)),
        s49::THE_LIST_SHRINKS.1@[4].0@ == ""@,
        s49::THE_LIST_SHRINKS.1@[4].1@ == "? gone notof from_leader"@,
        s49::THE_LIST_SHRINKS.1@[4].2@ == "from_leader"@,
{
    numerals_read_as_numbers();
    claims_of_equality_hold_where_facts_are_equal(row, all, s49::THE_LIST_SHRINKS.1@[2], path);
    claims_of_equality_hold_where_facts_are_equal(row, all, s49::THE_LIST_SHRINKS.1@[3], path);
}

/// What `THE_CLUSTER_KEEPS_SERVING` demands, claim by claim.
pub proof fn the_cluster_keeps_serving_demands(row: Seen, all: Seen, path: Seq<char>)
    ensures
        s49::THE_CLUSTER_KEEPS_SERVING.1@[1].0@ == ""@,
        s49::THE_CLUSTER_KEEPS_SERVING.1@[1].1@ == "? empty refused"@,
        s49::THE_CLUSTER_KEEPS_SERVING.1@[1].2@ == "refused"@,
        s49::THE_CLUSTER_KEEPS_SERVING.1@[2].0@ == ""@,
        ruling_on(row, all, s49::THE_CLUSTER_KEEPS_SERVING.1@[2], path) matches Some(r) ==> (r.holds()
            <==> (operand(row, all, "last"@) matches Some(Truth::Int(got)) && wanted(row, all, "before+10"@) matches Some(
            Truth::Int(want),
        ) && got >= want)),
{
    claims_of_size_are_of_numbers(row, all, s49::THE_CLUSTER_KEEPS_SERVING.1@[2], path);
}

/// What `NOTHING_IS_LOST` demands, claim by claim.
pub proof fn nothing_is_lost_demands(row: Seen, all: Seen, path: Seq<char>)
    ensures
        s49::NOTHING_IS_LOST.1@[1].0@ == ""@,
        s49::NOTHING_IS_LOST.1@[1].1@ == "? empty wrong"@,
        s49::NOTHING_IS_LOST.1@[1].2@ == "wrong"@,
{
}

/// What `THE_REMOVED_MEMBER_IS_NOT_COUNTED` demands, claim by claim.
pub proof fn the_removed_member_is_not_counted_demands(row: Seen, all: Seen, path: Seq<char>)
    ensures
        s49::THE_REMOVED_MEMBER_IS_NOT_COUNTED.1@[2].0@ == ""@,
        ruling_on(row, all, s49::THE_REMOVED_MEMBER_IS_NOT_COUNTED.1@[2], path) matches Some(r) ==> (r.holds()
            <==> operand(row, all, "removed_id"@) != Some(Truth::Int(0))),
        s49::THE_REMOVED_MEMBER_IS_NOT_COUNTED.1@[3].0@ == ""@,
        s49::THE_REMOVED_MEMBER_IS_NOT_COUNTED.1@[3].1@ == "? empty sightings"@,
        s49::THE_REMOVED_MEMBER_IS_NOT_COUNTED.1@[3].2@ == "sightings"@,
        s49::THE_REMOVED_MEMBER_IS_NOT_COUNTED.1@[4].0@ == ""@,
        s49::THE_REMOVED_MEMBER_IS_NOT_COUNTED.1@[4].1@ == "? !running"@,
        s49::THE_REMOVED_MEMBER_IS_NOT_COUNTED.1@[4].2@ == "running"@,
{
    numerals_read_as_numbers();
    claims_of_equality_hold_where_facts_are_equal(row, all, s49::THE_REMOVED_MEMBER_IS_NOT_COUNTED.1@[2], path);
}

/// What `THE_QUORUM_SIZE_CHANGES` demands, claim by claim.
pub proof fn the_quorum_size_changes_demands(row: Seen, all: Seen, path: Seq<char>)
    ensures
        s49::THE_QUORUM_SIZE_CHANGES.1@[3].0@ == ""@,
        s49::THE_QUORUM_SIZE_CHANGES.1@[3].1@ == "? acceptable"@,
        s49::THE_QUORUM_SIZE_CHANGES.1@[3].2@ == "code"@,
{
}

/// What `REMOVING_THE_LEADER` demands, claim by claim.
pub proof fn removing_the_leader_demands(row: Seen, all: Seen, path: Seq<char>)
    ensures
        s49::REMOVING_THE_LEADER.1@[2].0@ == ""@,
        s49::REMOVING_THE_LEADER.1@[2].1@ == "? fresh in rest"@,
        s49::REMOVING_THE_LEADER.1@[2].2@ == "fresh+1"@,
        s49::REMOVING_THE_LEADER.1@[3].0@ == ""@,
        ruling_on(row, all, s49::REMOVING_THE_LEADER.1@[3], path) matches Some(r) ==> (r.holds()
            <==> operand(row, all, "len"@) == Some(Truth::Int(2))),
        s49::REMOVING_THE_LEADER.1@[4].0@ == ""@,
        ruling_on(row, all, s49::REMOVING_THE_LEADER.1@[4], path) matches Some(r) ==> (r.holds()
            <==> operand(row, all, "kept"@) == wanted(row, all, "'written by the old leader"@)),
{
    numerals_read_as_numbers();
    claims_of_equality_hold_where_facts_are_equal(row, all, s49::REMOVING_THE_LEADER.1@[3], path);
    claims_of_equality_hold_where_facts_are_equal(row, all, s49::REMOVING_THE_LEADER.1@[4], path);
}

/// What `REMOVING_AN_ID_THAT_IS_NOT_THERE` demands, claim by claim.
pub proof fn removing_an_id_that_is_not_there_demands(row: Seen, all: Seen, path: Seq<char>)
    ensures
        s49::REMOVING_AN_ID_THAT_IS_NOT_THERE.1@[3].0@ == ""@,
        ruling_on(row, all, s49::REMOVING_AN_ID_THAT_IS_NOT_THERE.1@[3], path) matches Some(r) ==> (r.holds()
            <==> operand(row, all, "names"@) == wanted(row, all, "[m1\nm2\nm3"@)),
{
    claims_of_equality_hold_where_facts_are_equal(row, all, s49::REMOVING_AN_ID_THAT_IS_NOT_THERE.1@[3], path);
}

/// What `THE_LAST_MEMBER_CANNOT_BE_REMOVED` demands, claim by claim.
pub proof fn the_last_member_cannot_be_removed_demands(row: Seen, all: Seen, path: Seq<char>)
    ensures
        s49::THE_LAST_MEMBER_CANNOT_BE_REMOVED.1@[3].0@ == ""@,
        ruling_on(row, all, s49::THE_LAST_MEMBER_CANNOT_BE_REMOVED.1@[3], path) matches Some(r) ==> (r.holds()
            <==> operand(row, all, "len"@) == Some(Truth::Int(1))),
        s49::THE_LAST_MEMBER_CANNOT_BE_REMOVED.1@[4].0@ == ""@,
        ruling_on(row, all, s49::THE_LAST_MEMBER_CANNOT_BE_REMOVED.1@[4], path) matches Some(r) ==> (r.holds()
            <==> operand(row, all, "still_there"@) == wanted(row, all, "alone"@)),
        s49::THE_LAST_MEMBER_CANNOT_BE_REMOVED.1@[5].0@ == ""@,
        s49::THE_LAST_MEMBER_CANNOT_BE_REMOVED.1@[5].1@ == "? serving"@,
        s49::THE_LAST_MEMBER_CANNOT_BE_REMOVED.1@[5].2@ == "error"@,
{
    numerals_read_as_numbers();
    claims_of_equality_hold_where_facts_are_equal(row, all, s49::THE_LAST_MEMBER_CANNOT_BE_REMOVED.1@[3], path);
    claims_of_equality_hold_where_facts_are_equal(row, all, s49::THE_LAST_MEMBER_CANNOT_BE_REMOVED.1@[4], path);
}

/// What `LEADER_AGAIN` demands, claim by claim.
pub proof fn leader_again_demands(row: Seen, all: Seen, path: Seq<char>)
    ensures
        s50::LEADER_AGAIN.1@[0].0@ == ""@,
        s50::LEADER_AGAIN.1@[0].1@ == "? after < 3"@,
        s50::LEADER_AGAIN.1@[0].2@ == "after"@,
        s50::LEADER_AGAIN.1@[1].0@ == ""@,
        ruling_on(row, all, s50::LEADER_AGAIN.1@[1], path) matches Some(r) ==> (r.holds()
            <==> operand(row, all, "named"@) == wanted(row, all, "member_id"@)),
        s50::LEADER_AGAIN.1@[2].0@ == ""@,
        ruling_on(row, all, s50::LEADER_AGAIN.1@[2], path) matches Some(r) ==> (r.holds()
            <==> (operand(row, all, "term"@) matches Some(Truth::Int(got)) && wanted(row, all, "term_before"@) matches Some(
            Truth::Int(want),
        ) && got >= want)),
{
    claims_of_equality_hold_where_facts_are_equal(row, all, s50::LEADER_AGAIN.1@[1], path);
    claims_of_size_are_of_numbers(row, all, s50::LEADER_AGAIN.1@[2], path);
}

/// What `REVISION_CONTINUES` demands, claim by claim.
pub proof fn revision_continues_demands(row: Seen, all: Seen, path: Seq<char>)
    ensures
        s50::REVISION_CONTINUES.1@[0].0@ == ""@,
        ruling_on(row, all, s50::REVISION_CONTINUES.1@[0], path) matches Some(r) ==> (r.holds()
            <==> (operand(row, all, "after"@) matches Some(Truth::Int(got)) && wanted(row, all, "before"@) matches Some(
            Truth::Int(want),
        ) && got >= want)),
        s50::REVISION_CONTINUES.1@[1].0@ == ""@,
        s50::REVISION_CONTINUES.1@[1].1@ == "? next > before"@,
        s50::REVISION_CONTINUES.1@[1].2@ == "before next"@,
{
    claims_of_size_are_of_numbers(row, all, s50::REVISION_CONTINUES.1@[0], path);
}

/// What `IDENTITY_IS_UNCHANGED` demands, claim by claim.
pub proof fn identity_is_unchanged_demands(row: Seen, all: Seen, path: Seq<char>)
    ensures
        s50::IDENTITY_IS_UNCHANGED.1@[0].0@ == ""@,
        ruling_on(row, all, s50::IDENTITY_IS_UNCHANGED.1@[0], path) matches Some(r) ==> (r.holds()
            <==> operand(row, all, "len"@) == Some(Truth::Int(3))),
        s50::IDENTITY_IS_UNCHANGED.1@[1].0@ == ""@,
        ruling_on(row, all, s50::IDENTITY_IS_UNCHANGED.1@[1], path) matches Some(r) ==> (r.holds()
            <==> operand(row, all, "ids_after"@) == wanted(row, all, "ids_before"@)),
        s50::IDENTITY_IS_UNCHANGED.1@[2].0@ == "member"@,
        ruling_on(row, all, s50::IDENTITY_IS_UNCHANGED.1@[2], path) matches Some(r) ==> (r.holds()
            <==> operand(row, all, "cluster_id"@) == wanted(row, all, "cluster_id_before"@)),
{
    numerals_read_as_numbers();
    claims_of_equality_hold_where_facts_are_equal(row, all, s50::IDENTITY_IS_UNCHANGED.1@[0], path);
    claims_of_equality_hold_where_facts_are_equal(row, all, s50::IDENTITY_IS_UNCHANGED.1@[1], path);
    claims_of_equality_hold_where_facts_are_equal(row, all, s50::IDENTITY_IS_UNCHANGED.1@[2], path);
}

/// What `MEMBERS_AGREE_AFTER_RESTART` demands, claim by claim.
pub proof fn members_agree_after_restart_demands(row: Seen, all: Seen, path: Seq<char>)
    ensures
        s50::MEMBERS_AGREE_AFTER_RESTART.1@[0].0@ == ""@,
        ruling_on(row, all, s50::MEMBERS_AGREE_AFTER_RESTART.1@[0], path) matches Some(r) ==> (r.holds()
            <==> operand(row, all, "agreed"@) == wanted(row, all, "written"@)),
        s50::MEMBERS_AGREE_AFTER_RESTART.1@[1].0@ == "key"@,
        ruling_on(row, all, s50::MEMBERS_AGREE_AFTER_RESTART.1@[1], path) matches Some(r) ==> (r.holds()
            <==> operand(row, all, "key"@) == wanted(row, all, "wrote_key"@)),
        s50::MEMBERS_AGREE_AFTER_RESTART.1@[2].0@ == "key"@,
        ruling_on(row, all, s50::MEMBERS_AGREE_AFTER_RESTART.1@[2], path) matches Some(r) ==> (r.holds()
            <==> operand(row, all, "value"@) == wanted(row, all, "wrote"@)),
{
    claims_of_equality_hold_where_facts_are_equal(row, all, s50::MEMBERS_AGREE_AFTER_RESTART.1@[0], path);
    claims_of_equality_hold_where_facts_are_equal(row, all, s50::MEMBERS_AGREE_AFTER_RESTART.1@[1], path);
    claims_of_equality_hold_where_facts_are_equal(row, all, s50::MEMBERS_AGREE_AFTER_RESTART.1@[2], path);
}

/// What `FIVE_MEMBERS_RESTART` demands, claim by claim.
pub proof fn five_members_restart_demands(row: Seen, all: Seen, path: Seq<char>)
    ensures
        s50::FIVE_MEMBERS_RESTART.1@[0].0@ == ""@,
        s50::FIVE_MEMBERS_RESTART.1@[0].1@ == "? leader < 5"@,
        s50::FIVE_MEMBERS_RESTART.1@[0].2@ == "leader"@,
        s50::FIVE_MEMBERS_RESTART.1@[1].0@ == ""@,
        ruling_on(row, all, s50::FIVE_MEMBERS_RESTART.1@[1], path) matches Some(r) ==> (r.holds()
            <==> operand(row, all, "running"@) == Some(Truth::Int(5))),
{
    numerals_read_as_numbers();
    claims_of_equality_hold_where_facts_are_equal(row, all, s50::FIVE_MEMBERS_RESTART.1@[1], path);
}

/// What `REVISIONS_INCREASE` demands, claim by claim.
pub proof fn revisions_increase_demands(row: Seen, all: Seen, path: Seq<char>)
    ensures
        s51::REVISIONS_INCREASE.1@[0].0@ == ""@,
        s51::REVISIONS_INCREASE.1@[0].1@ == "? rising revisions"@,
        s51::REVISIONS_INCREASE.1@[0].2@ == "revisions"@,
{
}

/// What `CONVERGES_AFTER_HEAL` demands, claim by claim.
pub proof fn converges_after_heal_demands(row: Seen, all: Seen, path: Seq<char>)
    ensures
        s51::CONVERGES_AFTER_HEAL.1@[0].0@ == ""@,
        ruling_on(row, all, s51::CONVERGES_AFTER_HEAL.1@[0], path) matches Some(r) ==> (r.holds()
            <==> operand(row, all, "agreed"@) == wanted(row, all, "written"@)),
        s51::CONVERGES_AFTER_HEAL.1@[1].0@ == "key"@,
        ruling_on(row, all, s51::CONVERGES_AFTER_HEAL.1@[1], path) matches Some(r) ==> (r.holds()
            <==> operand(row, all, "value"@) == wanted(row, all, "wrote"@)),
{
    claims_of_equality_hold_where_facts_are_equal(row, all, s51::CONVERGES_AFTER_HEAL.1@[0], path);
    claims_of_equality_hold_where_facts_are_equal(row, all, s51::CONVERGES_AFTER_HEAL.1@[1], path);
}

/// What `LEADER_MAY_CHANGE` demands, claim by claim.
pub proof fn leader_may_change_demands(row: Seen, all: Seen, path: Seq<char>)
    ensures
        s51::LEADER_MAY_CHANGE.1@[0].0@ == ""@,
        ruling_on(row, all, s51::LEADER_MAY_CHANGE.1@[0], path) matches Some(r) ==> (r.holds()
            <==> (operand(row, all, "term_after"@) matches Some(Truth::Int(got)) && wanted(row, all, "term_before"@) matches Some(
            Truth::Int(want),
        ) && got >= want)),
{
    claims_of_size_are_of_numbers(row, all, s51::LEADER_MAY_CHANGE.1@[0], path);
}

/// What `REVISION_NEVER_RETREATS` demands, claim by claim.
pub proof fn revision_never_retreats_demands(row: Seen, all: Seen, path: Seq<char>)
    ensures
        s51::REVISION_NEVER_RETREATS.1@[0].0@ == "member"@,
        s51::REVISION_NEVER_RETREATS.1@[0].1@ == "? steady revisions"@,
        s51::REVISION_NEVER_RETREATS.1@[0].2@ == "revisions"@,
        s51::REVISION_NEVER_RETREATS.1@[2].0@ == ""@,
        ruling_on(row, all, s51::REVISION_NEVER_RETREATS.1@[2], path) matches Some(r) ==> (r.holds()
            <==> (operand(row, all, "highest"@) matches Some(Truth::Int(got)) && got >= 6)),
{
    numerals_read_as_numbers();
    claims_of_size_are_of_numbers(row, all, s51::REVISION_NEVER_RETREATS.1@[2], path);
}

/// What `READABLE_AFTER_THE_SKEW` demands, claim by claim.
pub proof fn readable_after_the_skew_demands(row: Seen, all: Seen, path: Seq<char>)
    ensures
        s51::READABLE_AFTER_THE_SKEW.1@[0].0@ == ""@,
        s51::READABLE_AFTER_THE_SKEW.1@[0].1@ == "? rising revisions"@,
        s51::READABLE_AFTER_THE_SKEW.1@[0].2@ == "revisions"@,
{
}

/// What `WRITES_ARE_STILL_ACKNOWLEDGED` demands, claim by claim.
pub proof fn writes_are_still_acknowledged_demands(row: Seen, all: Seen, path: Seq<char>)
    ensures
        s52::WRITES_ARE_STILL_ACKNOWLEDGED.1@[0].0@ == ""@,
        ruling_on(row, all, s52::WRITES_ARE_STILL_ACKNOWLEDGED.1@[0], path) matches Some(r) ==> (r.holds()
            <==> (operand(row, all, "acknowledged"@) matches Some(Truth::Int(got)) && got >= 5)),
{
    numerals_read_as_numbers();
    claims_of_size_are_of_numbers(row, all, s52::WRITES_ARE_STILL_ACKNOWLEDGED.1@[0], path);
}

/// What `MEMBERS_CONVERGE_AFTER_THE_HEAL` demands, claim by claim.
pub proof fn members_converge_after_the_heal_demands(row: Seen, all: Seen, path: Seq<char>)
    ensures
        s52::MEMBERS_CONVERGE_AFTER_THE_HEAL.1@[0].0@ == ""@,
        ruling_on(row, all, s52::MEMBERS_CONVERGE_AFTER_THE_HEAL.1@[0], path) matches Some(r) ==> (r.holds()
            <==> operand(row, all, "agreed"@) == wanted(row, all, "keys"@)),
{
    claims_of_equality_hold_where_facts_are_equal(row, all, s52::MEMBERS_CONVERGE_AFTER_THE_HEAL.1@[0], path);
}

/// What `REVISION_NEVER_RETREATS` demands, claim by claim.
pub proof fn s52_revision_never_retreats_demands(row: Seen, all: Seen, path: Seq<char>)
    ensures
        s52::REVISION_NEVER_RETREATS.1@[0].0@ == "member"@,
        s52::REVISION_NEVER_RETREATS.1@[0].1@ == "? steady revisions"@,
        s52::REVISION_NEVER_RETREATS.1@[0].2@ == "revisions"@,
        s52::REVISION_NEVER_RETREATS.1@[2].0@ == ""@,
        ruling_on(row, all, s52::REVISION_NEVER_RETREATS.1@[2], path) matches Some(r) ==> (r.holds()
            <==> (operand(row, all, "highest"@) matches Some(Truth::Int(got)) && got >= 8)),
{
    numerals_read_as_numbers();
    claims_of_size_are_of_numbers(row, all, s52::REVISION_NEVER_RETREATS.1@[2], path);
}

/// What `A_LEADER_IS_NAMED_AGAIN` demands, claim by claim.
pub proof fn a_leader_is_named_again_demands(row: Seen, all: Seen, path: Seq<char>)
    ensures
        s52::A_LEADER_IS_NAMED_AGAIN.1@[0].0@ == ""@,
        s52::A_LEADER_IS_NAMED_AGAIN.1@[0].1@ == "? after < 3"@,
        s52::A_LEADER_IS_NAMED_AGAIN.1@[0].2@ == "after"@,
{
}

/// What `THE_INJECTOR_DID_SOMETHING` demands, claim by claim.
pub proof fn the_injector_did_something_demands(row: Seen, all: Seen, path: Seq<char>)
    ensures
        s52::THE_INJECTOR_DID_SOMETHING.1@[0].0@ == ""@,
        s52::THE_INJECTOR_DID_SOMETHING.1@[0].1@ == "? blocked > 0"@,
        s52::THE_INJECTOR_DID_SOMETHING.1@[0].2@ == "blocked"@,
{
}

/// What `PROGRESS_IS_MADE` demands, claim by claim.
pub proof fn progress_is_made_demands(row: Seen, all: Seen, path: Seq<char>)
    ensures
        s53::PROGRESS_IS_MADE.1@[0].0@ == ""@,
        ruling_on(row, all, s53::PROGRESS_IS_MADE.1@[0], path) matches Some(r) ==> (r.holds()
            <==> operand(row, all, "written"@) == Some(Truth::Int(12))),
{
    numerals_read_as_numbers();
    claims_of_equality_hold_where_facts_are_equal(row, all, s53::PROGRESS_IS_MADE.1@[0], path);
}

/// What `REVISIONS_ARE_UNBROKEN` demands, claim by claim.
pub proof fn revisions_are_unbroken_demands(row: Seen, all: Seen, path: Seq<char>)
    ensures
        s53::REVISIONS_ARE_UNBROKEN.1@[0].0@ == ""@,
        s53::REVISIONS_ARE_UNBROKEN.1@[0].1@ == "? rising revisions"@,
        s53::REVISIONS_ARE_UNBROKEN.1@[0].2@ == "revisions"@,
        s53::REVISIONS_ARE_UNBROKEN.1@[1].0@ == ""@,
        ruling_on(row, all, s53::REVISIONS_ARE_UNBROKEN.1@[1], path) matches Some(r) ==> (r.holds()
            <==> operand(row, all, "span"@) == Some(Truth::Int(9))),
{
    numerals_read_as_numbers();
    claims_of_equality_hold_where_facts_are_equal(row, all, s53::REVISIONS_ARE_UNBROKEN.1@[1], path);
}

/// What `MEMBERS_CONVERGE` demands, claim by claim.
pub proof fn members_converge_demands(row: Seen, all: Seen, path: Seq<char>)
    ensures
        s53::MEMBERS_CONVERGE.1@[0].0@ == ""@,
        ruling_on(row, all, s53::MEMBERS_CONVERGE.1@[0], path) matches Some(r) ==> (r.holds()
            <==> (operand(row, all, "acknowledged"@) matches Some(Truth::Int(got)) && got >= 20)),
        s53::MEMBERS_CONVERGE.1@[1].0@ == ""@,
        ruling_on(row, all, s53::MEMBERS_CONVERGE.1@[1], path) matches Some(r) ==> (r.holds()
            <==> operand(row, all, "agreed"@) == wanted(row, all, "keys"@)),
{
    numerals_read_as_numbers();
    claims_of_size_are_of_numbers(row, all, s53::MEMBERS_CONVERGE.1@[0], path);
    claims_of_equality_hold_where_facts_are_equal(row, all, s53::MEMBERS_CONVERGE.1@[1], path);
}

/// What `APPENDS_ARE_IDEMPOTENT` demands, claim by claim.
pub proof fn appends_are_idempotent_demands(row: Seen, all: Seen, path: Seq<char>)
    ensures
        s53::APPENDS_ARE_IDEMPOTENT.1@[0].0@ == "member/range"@,
        ruling_on(row, all, s53::APPENDS_ARE_IDEMPOTENT.1@[0], path) matches Some(r) ==> (r.holds()
            <==> operand(row, all, "count"@) == Some(Truth::Int(10))),
        s53::APPENDS_ARE_IDEMPOTENT.1@[1].0@ == "member/range"@,
        ruling_on(row, all, s53::APPENDS_ARE_IDEMPOTENT.1@[1], path) matches Some(r) ==> (r.holds()
            <==> operand(row, all, "len"@) == Some(Truth::Int(10))),
        s53::APPENDS_ARE_IDEMPOTENT.1@[2].0@ == "member/pair"@,
        ruling_on(row, all, s53::APPENDS_ARE_IDEMPOTENT.1@[2], path) matches Some(r) ==> (r.holds()
            <==> operand(row, all, "version"@) == Some(Truth::Int(1))),
        s53::APPENDS_ARE_IDEMPOTENT.1@[3].0@ == "member/pair"@,
        ruling_on(row, all, s53::APPENDS_ARE_IDEMPOTENT.1@[3], path) matches Some(r) ==> (r.holds()
            <==> operand(row, all, "mod_revision"@) == wanted(row, all, "create_revision"@)),
{
    numerals_read_as_numbers();
    claims_of_equality_hold_where_facts_are_equal(row, all, s53::APPENDS_ARE_IDEMPOTENT.1@[0], path);
    claims_of_equality_hold_where_facts_are_equal(row, all, s53::APPENDS_ARE_IDEMPOTENT.1@[1], path);
    claims_of_equality_hold_where_facts_are_equal(row, all, s53::APPENDS_ARE_IDEMPOTENT.1@[2], path);
    claims_of_equality_hold_where_facts_are_equal(row, all, s53::APPENDS_ARE_IDEMPOTENT.1@[3], path);
}

/// What `A_LEADER_IS_NAMED` demands, claim by claim.
pub proof fn a_leader_is_named_demands(row: Seen, all: Seen, path: Seq<char>)
    ensures
        s53::A_LEADER_IS_NAMED.1@[0].0@ == ""@,
        s53::A_LEADER_IS_NAMED.1@[0].1@ == "? under < 3"@,
        s53::A_LEADER_IS_NAMED.1@[0].2@ == "under"@,
        s53::A_LEADER_IS_NAMED.1@[1].0@ == ""@,
        ruling_on(row, all, s53::A_LEADER_IS_NAMED.1@[1], path) matches Some(r) ==> (r.holds()
            <==> operand(row, all, "written"@) == Some(Truth::Int(4))),
{
    numerals_read_as_numbers();
    claims_of_equality_hold_where_facts_are_equal(row, all, s53::A_LEADER_IS_NAMED.1@[1], path);
}

/// What `READS_INVENT_NOTHING` demands, claim by claim.
pub proof fn reads_invent_nothing_demands(row: Seen, all: Seen, path: Seq<char>)
    ensures
        s53::READS_INVENT_NOTHING.1@[0].0@ == "member/read"@,
        ruling_on(row, all, s53::READS_INVENT_NOTHING.1@[0], path) matches Some(r) ==> (r.holds()
            <==> operand(row, all, "count"@) == Some(Truth::Int(0))),
        s53::READS_INVENT_NOTHING.1@[1].0@ == "member/read"@,
        ruling_on(row, all, s53::READS_INVENT_NOTHING.1@[1], path) matches Some(r) ==> (r.holds()
            <==> operand(row, all, "len"@) == Some(Truth::Int(0))),
{
    numerals_read_as_numbers();
    claims_of_equality_hold_where_facts_are_equal(row, all, s53::READS_INVENT_NOTHING.1@[0], path);
    claims_of_equality_hold_where_facts_are_equal(row, all, s53::READS_INVENT_NOTHING.1@[1], path);
}

/// What `THE_INJECTOR_REPORTS_ITSELF` demands, claim by claim.
pub proof fn the_injector_reports_itself_demands(row: Seen, all: Seen, path: Seq<char>)
    ensures
        s53::THE_INJECTOR_REPORTS_ITSELF.1@[2].0@ == ""@,
        ruling_on(row, all, s53::THE_INJECTOR_REPORTS_ITSELF.1@[2], path) matches Some(r) ==> (r.holds()
            <==> operand(row, all, "written"@) == Some(Truth::Int(10))),
{
    numerals_read_as_numbers();
    claims_of_equality_hold_where_facts_are_equal(row, all, s53::THE_INJECTOR_REPORTS_ITSELF.1@[2], path);
}

} // verus!
