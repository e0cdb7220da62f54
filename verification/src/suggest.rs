//! The canned writing suggestions the assistant serves while no real
//! completion endpoint is wired up.  Drawing the random index is the
//! caller's affair; given the drawn number, the choice made here is exact.

use vstd::prelude::*;

verus! {

/// The pool of canned suggestions, in a fixed order.
pub fn mock_suggestions() -> (r: Vec<String>)
    ensures
        r@.len() == 6,
        r@[0]@ == "夜幕降临，城市的霓虹灯开始闪烁，街道上的行人渐渐稀少。"@,
        r@[1]@ == "微风吹过，带来了远方的花香，也吹起了心中的涟漪。"@,
        r@[2]@ == "雨滴敲打着窗户，发出清脆的声响，仿佛在诉说着什么。"@,
        r@[3]@ == "阳光透过云层的缝隙洒向大地，给这个清晨带来了温暖。"@,
        r@[4]@ == "月光如水般洒在湖面上，泛起层层银色的涟漪。"@,
        r@[5]@ == "远山如黛，近水含烟，构成了一幅绝美的山水画卷。"@,
{
    let mut pool: Vec<String> = Vec::new();
    pool.push(String::from_str("夜幕降临，城市的霓虹灯开始闪烁，街道上的行人渐渐稀少。"));
    pool.push(String::from_str("微风吹过，带来了远方的花香，也吹起了心中的涟漪。"));
    pool.push(String::from_str("雨滴敲打着窗户，发出清脆的声响，仿佛在诉说着什么。"));
    pool.push(String::from_str("阳光透过云层的缝隙洒向大地，给这个清晨带来了温暖。"));
    pool.push(String::from_str("月光如水般洒在湖面上，泛起层层银色的涟漪。"));
    pool.push(String::from_str("远山如黛，近水含烟，构成了一幅绝美的山水画卷。"));
    pool
}

/// Turns an arbitrary drawn number into a valid index of a non-empty
/// pool.
pub fn pick_index(drawn: usize, pool_len: usize) -> (i: usize)
    requires
        pool_len > 0,
    ensures
        i == drawn % pool_len,
        i < pool_len,
{
    drawn % pool_len
}

} // verus!
