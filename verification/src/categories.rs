//! The built-in transaction categories and their display names.

use vstd::prelude::*;

verus! {

/// The display name of a category identifier: the built-in name for the
/// fifteen system categories, and the identifier itself for anything
/// else.
pub open spec fn spec_category_name(id: Seq<char>) -> Seq<char> {
    if id == "shopping"@ {
        "购物"@
    } else if id == "transport"@ {
        "交通"@
    } else if id == "dining"@ {
        "餐饮"@
    } else if id == "entertainment"@ {
        "娱乐"@
    } else if id == "housing"@ {
        "居住"@
    } else if id == "healthcare"@ {
        "医疗"@
    } else if id == "education"@ {
        "教育"@
    } else if id == "utilities"@ {
        "水电煤"@
    } else if id == "communication"@ {
        "通讯"@
    } else if id == "clothing"@ {
        "服饰"@
    } else if id == "other_expense"@ {
        "其他支出"@
    } else if id == "salary"@ {
        "工资"@
    } else if id == "bonus"@ {
        "奖金"@
    } else if id == "investment"@ {
        "投资收益"@
    } else if id == "other_income"@ {
        "其他收入"@
    } else {
        id
    }
}

/// The fifteen built-in categories as (identifier, display name) pairs;
/// every display name agrees with `spec_category_name`.
pub fn get_system_categories() -> (r: Vec<(&'static str, &'static str)>)
    ensures
        r@.len() == 15,
        forall|i: int| 0 <= i < r@.len()
            ==> (#[trigger] r@[i].1)@ == spec_category_name(r@[i].0@),
        r@[0].0@ == "shopping"@,
        r@[1].0@ == "transport"@,
        r@[2].0@ == "dining"@,
        r@[3].0@ == "entertainment"@,
        r@[4].0@ == "housing"@,
        r@[5].0@ == "healthcare"@,
        r@[6].0@ == "education"@,
        r@[7].0@ == "utilities"@,
        r@[8].0@ == "communication"@,
        r@[9].0@ == "clothing"@,
        r@[10].0@ == "other_expense"@,
        r@[11].0@ == "salary"@,
        r@[12].0@ == "bonus"@,
        r@[13].0@ == "investment"@,
        r@[14].0@ == "other_income"@,
{
    let mut m: Vec<(&'static str, &'static str)> = Vec::new();
    m.push(("shopping", "购物"));
    m.push(("transport", "交通"));
    m.push(("dining", "餐饮"));
    m.push(("entertainment", "娱乐"));
    m.push(("housing", "居住"));
    m.push(("healthcare", "医疗"));
    m.push(("education", "教育"));
    m.push(("utilities", "水电煤"));
    m.push(("communication", "通讯"));
    m.push(("clothing", "服饰"));
    m.push(("other_expense", "其他支出"));
    m.push(("salary", "工资"));
    m.push(("bonus", "奖金"));
    m.push(("investment", "投资收益"));
    m.push(("other_income", "其他收入"));
    proof {
        assert forall|i: int| 0 <= i < m@.len()
            implies (#[trigger] m@[i].1)@ == spec_category_name(m@[i].0@) by {
            reveal_strlit("shopping");
            reveal_strlit("transport");
            reveal_strlit("dining");
            reveal_strlit("entertainment");
            reveal_strlit("housing");
            reveal_strlit("healthcare");
            reveal_strlit("education");
            reveal_strlit("utilities");
            reveal_strlit("communication");
            reveal_strlit("clothing");
            reveal_strlit("other_expense");
            reveal_strlit("salary");
            reveal_strlit("bonus");
            reveal_strlit("investment");
            reveal_strlit("other_income");
            reveal_strlit("购物");
            reveal_strlit("交通");
            reveal_strlit("餐饮");
            reveal_strlit("娱乐");
            reveal_strlit("居住");
            reveal_strlit("医疗");
            reveal_strlit("教育");
            reveal_strlit("水电煤");
            reveal_strlit("通讯");
            reveal_strlit("服饰");
            reveal_strlit("其他支出");
            reveal_strlit("工资");
            reveal_strlit("奖金");
            reveal_strlit("投资收益");
            reveal_strlit("其他收入");
            assert("shopping"@.len() == 8 && "shopping"@[0] == 's');
            assert("transport"@.len() == 9 && "transport"@[0] == 't');
            assert("dining"@.len() == 6 && "dining"@[0] == 'd');
            assert("entertainment"@.len() == 13 && "entertainment"@[0] == 'e');
            assert("housing"@.len() == 7 && "housing"@[0] == 'h');
            assert("healthcare"@.len() == 10 && "healthcare"@[0] == 'h');
            assert("education"@.len() == 9 && "education"@[0] == 'e');
            assert("utilities"@.len() == 9 && "utilities"@[0] == 'u');
            assert("communication"@.len() == 13 && "communication"@[0] == 'c');
            assert("clothing"@.len() == 8 && "clothing"@[0] == 'c');
            assert("other_expense"@.len() == 13 && "other_expense"@[0] == 'o');
            assert("salary"@.len() == 6 && "salary"@[0] == 's');
            assert("bonus"@.len() == 5 && "bonus"@[0] == 'b');
            assert("investment"@.len() == 10 && "investment"@[0] == 'i');
            assert("other_income"@.len() == 12 && "other_income"@[0] == 'o');
            assert((m@[0].1)@ == spec_category_name(m@[0].0@));
            assert((m@[1].1)@ == spec_category_name(m@[1].0@));
            assert((m@[2].1)@ == spec_category_name(m@[2].0@));
            assert((m@[3].1)@ == spec_category_name(m@[3].0@));
            assert((m@[4].1)@ == spec_category_name(m@[4].0@));
            assert((m@[5].1)@ == spec_category_name(m@[5].0@));
            assert((m@[6].1)@ == spec_category_name(m@[6].0@));
            assert((m@[7].1)@ == spec_category_name(m@[7].0@));
            assert((m@[8].1)@ == spec_category_name(m@[8].0@));
            assert((m@[9].1)@ == spec_category_name(m@[9].0@));
            assert((m@[10].1)@ == spec_category_name(m@[10].0@));
            assert((m@[11].1)@ == spec_category_name(m@[11].0@));
            assert((m@[12].1)@ == spec_category_name(m@[12].0@));
            assert((m@[13].1)@ == spec_category_name(m@[13].0@));
            assert((m@[14].1)@ == spec_category_name(m@[14].0@));
        }
    }
    m
}

/// The display name of a category identifier, as a fresh `String`:
/// the built-in name for a system category, the identifier itself
/// otherwise.
pub fn get_category_name(id: &str) -> (r: String)
    ensures
        r@ == spec_category_name(id@),
{
    let id_s: String = id.to_owned();
    if id_s == "shopping".to_owned() {
        "购物".to_owned()
    } else if id_s == "transport".to_owned() {
        "交通".to_owned()
    } else if id_s == "dining".to_owned() {
        "餐饮".to_owned()
    } else if id_s == "entertainment".to_owned() {
        "娱乐".to_owned()
    } else if id_s == "housing".to_owned() {
        "居住".to_owned()
    } else if id_s == "healthcare".to_owned() {
        "医疗".to_owned()
    } else if id_s == "education".to_owned() {
        "教育".to_owned()
    } else if id_s == "utilities".to_owned() {
        "水电煤".to_owned()
    } else if id_s == "communication".to_owned() {
        "通讯".to_owned()
    } else if id_s == "clothing".to_owned() {
        "服饰".to_owned()
    } else if id_s == "other_expense".to_owned() {
        "其他支出".to_owned()
    } else if id_s == "salary".to_owned() {
        "工资".to_owned()
    } else if id_s == "bonus".to_owned() {
        "奖金".to_owned()
    } else if id_s == "investment".to_owned() {
        "投资收益".to_owned()
    } else if id_s == "other_income".to_owned() {
        "其他收入".to_owned()
    } else {
        id_s
    }
}

} // verus!
