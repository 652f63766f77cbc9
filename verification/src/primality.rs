//! The field order is prime: every element but zero has an inverse, and a
//! product vanishes only where a factor does.
//!
//! The proof is by a generator. The powers of seven repeat only after
//! `ORDER - 1` steps, so they are all the elements but zero, and each power
//! has a power for its inverse.

use crate::goldilocks_field::{
    field_mul, field_order, field_pow, lemma_field_pow_adds, lemma_field_pow_multiplies,
    lemma_field_pow_one, lemma_mul_assoc,
};
use crate::number_theory::{
    lemma_divisor_bound, lemma_multiple, lemma_prime_17, lemma_prime_2, lemma_prime_257,
    lemma_prime_3, lemma_prime_5, lemma_prime_65537, lemma_prime_factor, lemma_quotient,
};
use vstd::arithmetic::div_mod::lemma_fundamental_div_mod;
use vstd::arithmetic::power::lemma1_pow;
use vstd::prelude::*;
use vstd::relations::injective_on;
use vstd::set_lib::{lemma_int_range, lemma_map_size, lemma_subset_equality, set_int_range};

verus! {

/// The number of elements but zero: `ORDER - 1 = 2^32 * 3 * 5 * 17 * 257 * 65537`.
pub open spec fn group_order() -> nat {
    0xFFFF_FFFF_0000_0000
}

/// The power `7^k`.
pub open spec fn seven_to(k: nat) -> int {
    field_pow(7, k)
}

/// The power `base^exponent`, kept folded while the steps of a long
/// computation are checked.
#[verifier::opaque]
spec fn power(base: int, exponent: nat) -> int {
    field_pow(base, exponent)
}

/// The first power of a canonical value is the value.
proof fn lemma_power_one(base: int)
    requires
        0 <= base < field_order(),
    ensures
        power(base, 1) == base,
{
    reveal(power);
    lemma_field_pow_one(base);
}

/// The square of a power.
proof fn lemma_square(base: int, exponent: nat, value: int, square: int)
    requires
        power(base, exponent) == value,
        square == field_mul(value, value),
    ensures
        power(base, 2 * exponent) == square,
{
    reveal(power);
    lemma_field_pow_adds(base, exponent, exponent);
}

/// The power after a power.
proof fn lemma_times(base: int, exponent: nat, value: int, next: int)
    requires
        0 <= base < field_order(),
        power(base, exponent) == value,
        next == field_mul(value, base),
    ensures
        power(base, exponent + 1) == next,
{
    reveal(power);
    lemma_field_pow_one(base);
    lemma_field_pow_adds(base, exponent, 1);
}

/// `7^(2^31)`.
proof fn lemma_seven_to_2_31()
    ensures
        power(0x7, 0x80000000) == 0xf1323b7acab09084,
{
    lemma_power_one(0x7);
    lemma_square(0x7, 0x1, 0x7, 0x31);
    lemma_square(0x7, 0x2, 0x31, 0x961);
    lemma_square(0x7, 0x4, 0x961, 0x57f6c1);
    lemma_square(0x7, 0x8, 0x57f6c1, 0x1e39a5057d81);
    lemma_square(0x7, 0x10, 0x1e39a5057d81, 0x33cdc3006affab59);
    lemma_square(0x7, 0x20, 0x33cdc3006affab59, 0x9c232dfb69ab851e);
    lemma_square(0x7, 0x40, 0x9c232dfb69ab851e, 0xa8c0042254470173);
    lemma_square(0x7, 0x80, 0xa8c0042254470173, 0x15535ad69462d090);
    lemma_square(0x7, 0x100, 0x15535ad69462d090, 0xfef45a869aab8679);
    lemma_square(0x7, 0x200, 0xfef45a869aab8679, 0x21beccb8b6d8f6fa);
    lemma_square(0x7, 0x400, 0x21beccb8b6d8f6fa, 0x583cf0d902a86abc);
    lemma_square(0x7, 0x800, 0x583cf0d902a86abc, 0x8bf128731ab1a0b5);
    lemma_square(0x7, 0x1000, 0x8bf128731ab1a0b5, 0xd17ad58ee893a7d2);
    lemma_square(0x7, 0x2000, 0xd17ad58ee893a7d2, 0xfaa379da87a7f914);
    lemma_square(0x7, 0x4000, 0xfaa379da87a7f914, 0x9220d622d5cf1603);
    lemma_square(0x7, 0x8000, 0x9220d622d5cf1603, 0x9ad50a054da1207f);
    lemma_square(0x7, 0x10000, 0x9ad50a054da1207f, 0xa452f750dd9b8a44);
    lemma_square(0x7, 0x20000, 0xa452f750dd9b8a44, 0x1415f3b2bce09454);
    lemma_square(0x7, 0x40000, 0x1415f3b2bce09454, 0xd3db3f11768ae838);
    lemma_square(0x7, 0x80000, 0xd3db3f11768ae838, 0xb44626e05edf0086);
    lemma_square(0x7, 0x100000, 0xb44626e05edf0086, 0xe4de14a4047cb0bf);
    lemma_square(0x7, 0x200000, 0xe4de14a4047cb0bf, 0xf4d85bd7e852ec36);
    lemma_square(0x7, 0x400000, 0xf4d85bd7e852ec36, 0x3d56e129723521fd);
    lemma_square(0x7, 0x800000, 0x3d56e129723521fd, 0x6402e9b28e42bfe3);
    lemma_square(0x7, 0x1000000, 0x6402e9b28e42bfe3, 0xf7fd0e6632895a3a);
    lemma_square(0x7, 0x2000000, 0xf7fd0e6632895a3a, 0x44447512bd52434a);
    lemma_square(0x7, 0x4000000, 0x44447512bd52434a, 0xc878161102d0f705);
    lemma_square(0x7, 0x8000000, 0xc878161102d0f705, 0xf52dac93873eb7ce);
    lemma_square(0x7, 0x10000000, 0xf52dac93873eb7ce, 0x4bf5466963dd8aae);
    lemma_square(0x7, 0x20000000, 0x4bf5466963dd8aae, 0x392ec7049f67a8b5);
    lemma_square(0x7, 0x40000000, 0x392ec7049f67a8b5, 0xf1323b7acab09084);
}

/// `(7^(2^31))^(2^32 - 1)`, which is `7^((ORDER - 1) / 2)`.
proof fn lemma_half_order_power()
    ensures
        power(0xf1323b7acab09084, 0xffffffff) == 0xffffffff00000000,
{
    lemma_power_one(0xf1323b7acab09084);
    lemma_square(0xf1323b7acab09084, 0x1, 0xf1323b7acab09084, 0xaa5b2509f86bb4d4);
    lemma_times(0xf1323b7acab09084, 0x2, 0xaa5b2509f86bb4d4, 0xe2c7cbf74fd4fabc);
    lemma_square(0xf1323b7acab09084, 0x3, 0xe2c7cbf74fd4fabc, 0x11c37210161a0aa8);
    lemma_times(0xf1323b7acab09084, 0x6, 0x11c37210161a0aa8, 0xf78ec55fe1be25ac);
    lemma_square(0xf1323b7acab09084, 0x7, 0xf78ec55fe1be25ac, 0x3f228a16c54e4a16);
    lemma_times(0xf1323b7acab09084, 0xe, 0x3f228a16c54e4a16, 0xc9f8e7322f37943a);
    lemma_square(0xf1323b7acab09084, 0xf, 0xc9f8e7322f37943a, 0x9c7864a42339f298);
    lemma_times(0xf1323b7acab09084, 0x1e, 0x9c7864a42339f298, 0xb337f1b0edbd6837);
    lemma_square(0xf1323b7acab09084, 0x1f, 0xb337f1b0edbd6837, 0x3bbcb9be397fd294);
    lemma_times(0xf1323b7acab09084, 0x3e, 0x3bbcb9be397fd294, 0x949fab23607f6692);
    lemma_square(0xf1323b7acab09084, 0x3f, 0x949fab23607f6692, 0xe38658e727be3526);
    lemma_times(0xf1323b7acab09084, 0x7e, 0xe38658e727be3526, 0x6818c2d019824257);
    lemma_square(0xf1323b7acab09084, 0x7f, 0x6818c2d019824257, 0x33110ac2153a2abd);
    lemma_times(0xf1323b7acab09084, 0xfe, 0x33110ac2153a2abd, 0x7c6d90cec1eedb1f);
    lemma_square(0xf1323b7acab09084, 0xff, 0x7c6d90cec1eedb1f, 0xf41555f9bcddefbf);
    lemma_times(0xf1323b7acab09084, 0x1fe, 0xf41555f9bcddefbf, 0xb43994aaf8d28bc9);
    lemma_square(0xf1323b7acab09084, 0x1ff, 0xb43994aaf8d28bc9, 0xbafdaf299ad5d996);
    lemma_times(0xf1323b7acab09084, 0x3fe, 0xbafdaf299ad5d996, 0xafacf108da664a28);
    lemma_square(0xf1323b7acab09084, 0x3ff, 0xafacf108da664a28, 0x2f855003f35e4188);
    lemma_times(0xf1323b7acab09084, 0x7fe, 0x2f855003f35e4188, 0x48f04f0d4b63008);
    lemma_square(0xf1323b7acab09084, 0x7ff, 0x48f04f0d4b63008, 0x2c944e74888279f3);
    lemma_times(0xf1323b7acab09084, 0xffe, 0x2c944e74888279f3, 0x98816feb9b9bb1cd);
    lemma_square(0xf1323b7acab09084, 0xfff, 0x98816feb9b9bb1cd, 0x7861fc30e7b747fb);
    lemma_times(0xf1323b7acab09084, 0x1ffe, 0x7861fc30e7b747fb, 0xcc9f388f0d4fd651);
    lemma_square(0xf1323b7acab09084, 0x1fff, 0xcc9f388f0d4fd651, 0x69acbfa74472b3f6);
    lemma_times(0xf1323b7acab09084, 0x3ffe, 0x69acbfa74472b3f6, 0x98575ccadba9602d);
    lemma_square(0xf1323b7acab09084, 0x3fff, 0x98575ccadba9602d, 0x7da3796aa870df2);
    lemma_times(0xf1323b7acab09084, 0x7ffe, 0x7da3796aa870df2, 0x96c0e6b7a7791414);
    lemma_square(0xf1323b7acab09084, 0x7fff, 0x96c0e6b7a7791414, 0x166973e1a008e402);
    lemma_times(0xf1323b7acab09084, 0xfffe, 0x166973e1a008e402, 0x658f57b6adaa80c2);
    lemma_square(0xf1323b7acab09084, 0xffff, 0x658f57b6adaa80c2, 0x75ab0de70cf3ed11);
    lemma_times(0xf1323b7acab09084, 0x1fffe, 0x75ab0de70cf3ed11, 0x8c7f932fc2bd8306);
    lemma_square(0xf1323b7acab09084, 0x1ffff, 0x8c7f932fc2bd8306, 0xe52928f7e9ccf9b0);
    lemma_times(0xf1323b7acab09084, 0x3fffe, 0xe52928f7e9ccf9b0, 0x1d06d43c03635ca);
    lemma_square(0xf1323b7acab09084, 0x3ffff, 0x1d06d43c03635ca, 0x96fb1004784670b9);
    lemma_times(0xf1323b7acab09084, 0x7fffe, 0x96fb1004784670b9, 0xf51a1ab0f0af8100);
    lemma_square(0xf1323b7acab09084, 0x7ffff, 0xf51a1ab0f0af8100, 0xc93825ef98ecca81);
    lemma_times(0xf1323b7acab09084, 0xffffe, 0xc93825ef98ecca81, 0x57f8b80ee48777a5);
    lemma_square(0xf1323b7acab09084, 0xfffff, 0x57f8b80ee48777a5, 0xbd041e02f1318e70);
    lemma_times(0xf1323b7acab09084, 0x1ffffe, 0xbd041e02f1318e70, 0x98d519fe9a6b1fce);
    lemma_square(0xf1323b7acab09084, 0x1fffff, 0x98d519fe9a6b1fce, 0xde6a4b457b39e61b);
    lemma_times(0xf1323b7acab09084, 0x3ffffe, 0xde6a4b457b39e61b, 0xc4b9e9d87f9e6528);
    lemma_square(0xf1323b7acab09084, 0x3fffff, 0xc4b9e9d87f9e6528, 0xb6cadb16ca3c93f0);
    lemma_times(0xf1323b7acab09084, 0x7ffffe, 0xb6cadb16ca3c93f0, 0xcfa6c45b167f1d50);
    lemma_square(0xf1323b7acab09084, 0x7fffff, 0xcfa6c45b167f1d50, 0x9419c823a52dc1b5);
    lemma_times(0xf1323b7acab09084, 0xfffffe, 0x9419c823a52dc1b5, 0xb4a65c73bb51f0df);
    lemma_square(0xf1323b7acab09084, 0xffffff, 0xb4a65c73bb51f0df, 0x79e90c6bd360f830);
    lemma_times(0xf1323b7acab09084, 0x1fffffe, 0x79e90c6bd360f830, 0x6f5c8c66793e57b0);
    lemma_square(0xf1323b7acab09084, 0x1ffffff, 0x6f5c8c66793e57b0, 0xc14dd0ccb30c4350);
    lemma_times(0xf1323b7acab09084, 0x3fffffe, 0xc14dd0ccb30c4350, 0x445c03e2c544999e);
    lemma_square(0xf1323b7acab09084, 0x3ffffff, 0x445c03e2c544999e, 0x1e24ea31ce03e5f6);
    lemma_times(0xf1323b7acab09084, 0x7fffffe, 0x1e24ea31ce03e5f6, 0xc993ae94ebfb5e82);
    lemma_square(0xf1323b7acab09084, 0x7ffffff, 0xc993ae94ebfb5e82, 0xe697f925b26ff82b);
    lemma_times(0xf1323b7acab09084, 0xffffffe, 0xe697f925b26ff82b, 0xfdf083ece7de3189);
    lemma_square(0xf1323b7acab09084, 0xfffffff, 0xfdf083ece7de3189, 0x47bc87e552d03588);
    lemma_times(0xf1323b7acab09084, 0x1ffffffe, 0x47bc87e552d03588, 0xa47f2ecb61aa80ee);
    lemma_square(0xf1323b7acab09084, 0x1fffffff, 0xa47f2ecb61aa80ee, 0x379fbdc163d89516);
    lemma_times(0xf1323b7acab09084, 0x3ffffffe, 0x379fbdc163d89516, 0x886216ad589625cf);
    lemma_square(0xf1323b7acab09084, 0x3fffffff, 0x886216ad589625cf, 0x176bdb8fcea783f8);
    lemma_times(0xf1323b7acab09084, 0x7ffffffe, 0x176bdb8fcea783f8, 0xdbe9819cc1dc4ff0);
    lemma_square(0xf1323b7acab09084, 0x7fffffff, 0xdbe9819cc1dc4ff0, 0x676669cb3be57916);
    lemma_times(0xf1323b7acab09084, 0xfffffffe, 0x676669cb3be57916, 0xffffffff00000000);
}

/// `(7^(2^32))^((2^32 - 1) / 3)`, which is `7^((ORDER - 1) / 3)`.
proof fn lemma_power_without_3()
    ensures
        power(0xaa5b2509f86bb4d4, 0x55555555) == 0xfffffffe00000001,
{
    lemma_power_one(0xaa5b2509f86bb4d4);
    lemma_square(0xaa5b2509f86bb4d4, 0x1, 0xaa5b2509f86bb4d4, 0x420265815f3416fd);
    lemma_square(0xaa5b2509f86bb4d4, 0x2, 0x420265815f3416fd, 0x735a2fcd9a778a82);
    lemma_times(0xaa5b2509f86bb4d4, 0x4, 0x735a2fcd9a778a82, 0x6bfbc41872478fa8);
    lemma_square(0xaa5b2509f86bb4d4, 0x5, 0x6bfbc41872478fa8, 0xe5855b2ee49354fd);
    lemma_square(0xaa5b2509f86bb4d4, 0xa, 0xe5855b2ee49354fd, 0x647aa352ccd9b135);
    lemma_times(0xaa5b2509f86bb4d4, 0x14, 0x647aa352ccd9b135, 0x72720a272d46a246);
    lemma_square(0xaa5b2509f86bb4d4, 0x15, 0x72720a272d46a246, 0x262b22d49e5c9655);
    lemma_square(0xaa5b2509f86bb4d4, 0x2a, 0x262b22d49e5c9655, 0xd6f9d6377481083b);
    lemma_times(0xaa5b2509f86bb4d4, 0x54, 0xd6f9d6377481083b, 0x41b105bbc9cfbbc7);
    lemma_square(0xaa5b2509f86bb4d4, 0x55, 0x41b105bbc9cfbbc7, 0x9361666858698720);
    lemma_square(0xaa5b2509f86bb4d4, 0xaa, 0x9361666858698720, 0xcbc7848831264133);
    lemma_times(0xaa5b2509f86bb4d4, 0x154, 0xcbc7848831264133, 0xfed003ca67449250);
    lemma_square(0xaa5b2509f86bb4d4, 0x155, 0xfed003ca67449250, 0xd2f4690a29ba83d);
    lemma_square(0xaa5b2509f86bb4d4, 0x2aa, 0xd2f4690a29ba83d, 0x1be0ef14aead59c1);
    lemma_times(0xaa5b2509f86bb4d4, 0x554, 0x1be0ef14aead59c1, 0xc9c6c2a5a2ea7f90);
    lemma_square(0xaa5b2509f86bb4d4, 0x555, 0xc9c6c2a5a2ea7f90, 0xc1805034dbac3e2);
    lemma_square(0xaa5b2509f86bb4d4, 0xaaa, 0xc1805034dbac3e2, 0x600283d8edb69a55);
    lemma_times(0xaa5b2509f86bb4d4, 0x1554, 0x600283d8edb69a55, 0x9cf64193d3172414);
    lemma_square(0xaa5b2509f86bb4d4, 0x1555, 0x9cf64193d3172414, 0xd38f0986d64649c3);
    lemma_square(0xaa5b2509f86bb4d4, 0x2aaa, 0xd38f0986d64649c3, 0xba2e86f4d6d9aeb6);
    lemma_times(0xaa5b2509f86bb4d4, 0x5554, 0xba2e86f4d6d9aeb6, 0x20281364bc500de);
    lemma_square(0xaa5b2509f86bb4d4, 0x5555, 0x20281364bc500de, 0x332126bc4a68af81);
    lemma_square(0xaa5b2509f86bb4d4, 0xaaaa, 0x332126bc4a68af81, 0x20cc173c92de0fc8);
    lemma_times(0xaa5b2509f86bb4d4, 0x15554, 0x20cc173c92de0fc8, 0xfe8c8e4fc356bc27);
    lemma_square(0xaa5b2509f86bb4d4, 0x15555, 0xfe8c8e4fc356bc27, 0xc9f2fde02367bc96);
    lemma_square(0xaa5b2509f86bb4d4, 0x2aaaa, 0xc9f2fde02367bc96, 0xbe8aa96c1308e18);
    lemma_times(0xaa5b2509f86bb4d4, 0x55554, 0xbe8aa96c1308e18, 0xe5d4a039e4f4b169);
    lemma_square(0xaa5b2509f86bb4d4, 0x55555, 0xe5d4a039e4f4b169, 0xa7306c9b8cfadfdb);
    lemma_square(0xaa5b2509f86bb4d4, 0xaaaaa, 0xa7306c9b8cfadfdb, 0x38c7017e3bf342e2);
    lemma_times(0xaa5b2509f86bb4d4, 0x155554, 0x38c7017e3bf342e2, 0x4f3c8cd21a2a1a7e);
    lemma_square(0xaa5b2509f86bb4d4, 0x155555, 0x4f3c8cd21a2a1a7e, 0x27e294293776afa5);
    lemma_square(0xaa5b2509f86bb4d4, 0x2aaaaa, 0x27e294293776afa5, 0xeddf072ec6fc68d5);
    lemma_times(0xaa5b2509f86bb4d4, 0x555554, 0xeddf072ec6fc68d5, 0x6c478021afff48fc);
    lemma_square(0xaa5b2509f86bb4d4, 0x555555, 0x6c478021afff48fc, 0xfce48eef15b9965f);
    lemma_square(0xaa5b2509f86bb4d4, 0xaaaaaa, 0xfce48eef15b9965f, 0xf2da5098ad5c83ca);
    lemma_times(0xaa5b2509f86bb4d4, 0x1555554, 0xf2da5098ad5c83ca, 0xb5b4a275b4b81a54);
    lemma_square(0xaa5b2509f86bb4d4, 0x1555555, 0xb5b4a275b4b81a54, 0xcd79712a2c50976a);
    lemma_square(0xaa5b2509f86bb4d4, 0x2aaaaaa, 0xcd79712a2c50976a, 0x54da48f31005464a);
    lemma_times(0xaa5b2509f86bb4d4, 0x5555554, 0x54da48f31005464a, 0x5a6b57b3a0a804b7);
    lemma_square(0xaa5b2509f86bb4d4, 0x5555555, 0x5a6b57b3a0a804b7, 0x9b217315152c8f24);
    lemma_square(0xaa5b2509f86bb4d4, 0xaaaaaaa, 0x9b217315152c8f24, 0x69c188b9a79859c1);
    lemma_times(0xaa5b2509f86bb4d4, 0x15555554, 0x69c188b9a79859c1, 0x9dc5d18c24167e63);
    lemma_square(0xaa5b2509f86bb4d4, 0x15555555, 0x9dc5d18c24167e63, 0x3be579155cb41d1f);
    lemma_square(0xaa5b2509f86bb4d4, 0x2aaaaaaa, 0x3be579155cb41d1f, 0xb0541bcf7eac632d);
    lemma_times(0xaa5b2509f86bb4d4, 0x55555554, 0xb0541bcf7eac632d, 0xfffffffe00000001);
}

/// `(7^(2^32))^((2^32 - 1) / 5)`, which is `7^((ORDER - 1) / 5)`.
proof fn lemma_power_without_5()
    ensures
        power(0xaa5b2509f86bb4d4, 0x33333333) == 0x130e07948a9d41d6,
{
    lemma_power_one(0xaa5b2509f86bb4d4);
    lemma_square(0xaa5b2509f86bb4d4, 0x1, 0xaa5b2509f86bb4d4, 0x420265815f3416fd);
    lemma_times(0xaa5b2509f86bb4d4, 0x2, 0x420265815f3416fd, 0x11c37210161a0aa8);
    lemma_square(0xaa5b2509f86bb4d4, 0x3, 0x11c37210161a0aa8, 0x9cdae742ef128e1b);
    lemma_square(0xaa5b2509f86bb4d4, 0x6, 0x9cdae742ef128e1b, 0xd18d4c58124acc13);
    lemma_square(0xaa5b2509f86bb4d4, 0xc, 0xd18d4c58124acc13, 0xce7ae060a07b9400);
    lemma_times(0xaa5b2509f86bb4d4, 0x18, 0xce7ae060a07b9400, 0x9e259f4162f69413);
    lemma_square(0xaa5b2509f86bb4d4, 0x19, 0x9e259f4162f69413, 0x1707c634f2563f9d);
    lemma_times(0xaa5b2509f86bb4d4, 0x32, 0x1707c634f2563f9d, 0x2abf65c0506e72fb);
    lemma_square(0xaa5b2509f86bb4d4, 0x33, 0x2abf65c0506e72fb, 0xec03507cc4679324);
    lemma_square(0xaa5b2509f86bb4d4, 0x66, 0xec03507cc4679324, 0x702d975cfb9a7758);
    lemma_square(0xaa5b2509f86bb4d4, 0xcc, 0x702d975cfb9a7758, 0xe85e49ca40049260);
    lemma_times(0xaa5b2509f86bb4d4, 0x198, 0xe85e49ca40049260, 0x67d53ecd9753a625);
    lemma_square(0xaa5b2509f86bb4d4, 0x199, 0x67d53ecd9753a625, 0x7ac327e2a2695be2);
    lemma_times(0xaa5b2509f86bb4d4, 0x332, 0x7ac327e2a2695be2, 0x7234c9b2ef7521b5);
    lemma_square(0xaa5b2509f86bb4d4, 0x333, 0x7234c9b2ef7521b5, 0xa03516edaa0f08c1);
    lemma_square(0xaa5b2509f86bb4d4, 0x666, 0xa03516edaa0f08c1, 0x5b4244e5619f4ecc);
    lemma_square(0xaa5b2509f86bb4d4, 0xccc, 0x5b4244e5619f4ecc, 0xc381b75ec4e882e0);
    lemma_times(0xaa5b2509f86bb4d4, 0x1998, 0xc381b75ec4e882e0, 0xd6a9781343ddad08);
    lemma_square(0xaa5b2509f86bb4d4, 0x1999, 0xd6a9781343ddad08, 0xc2e540bfb98bc246);
    lemma_times(0xaa5b2509f86bb4d4, 0x3332, 0xc2e540bfb98bc246, 0xb60b27c45efda2d3);
    lemma_square(0xaa5b2509f86bb4d4, 0x3333, 0xb60b27c45efda2d3, 0x897d14d8070ba3ff);
    lemma_square(0xaa5b2509f86bb4d4, 0x6666, 0x897d14d8070ba3ff, 0x5eb0081994edcc4a);
    lemma_square(0xaa5b2509f86bb4d4, 0xcccc, 0x5eb0081994edcc4a, 0x74675c696437418a);
    lemma_times(0xaa5b2509f86bb4d4, 0x19998, 0x74675c696437418a, 0x8d23337a50195208);
    lemma_square(0xaa5b2509f86bb4d4, 0x19999, 0x8d23337a50195208, 0xa018f708f8019311);
    lemma_times(0xaa5b2509f86bb4d4, 0x33332, 0xa018f708f8019311, 0x338c6bbf65756fc7);
    lemma_square(0xaa5b2509f86bb4d4, 0x33333, 0x338c6bbf65756fc7, 0x8da855e80f359bd9);
    lemma_square(0xaa5b2509f86bb4d4, 0x66666, 0x8da855e80f359bd9, 0x4088d74b882eb020);
    lemma_square(0xaa5b2509f86bb4d4, 0xccccc, 0x4088d74b882eb020, 0xdb0a95177aff5083);
    lemma_times(0xaa5b2509f86bb4d4, 0x199998, 0xdb0a95177aff5083, 0x623dcba3b68875a0);
    lemma_square(0xaa5b2509f86bb4d4, 0x199999, 0x623dcba3b68875a0, 0xf27a5d008495c1e8);
    lemma_times(0xaa5b2509f86bb4d4, 0x333332, 0xf27a5d008495c1e8, 0xa69b3f1bab2a317);
    lemma_square(0xaa5b2509f86bb4d4, 0x333333, 0xa69b3f1bab2a317, 0x6ecc5790a218d3bf);
    lemma_square(0xaa5b2509f86bb4d4, 0x666666, 0x6ecc5790a218d3bf, 0x36a8c4b2f73cdcb8);
    lemma_square(0xaa5b2509f86bb4d4, 0xcccccc, 0x36a8c4b2f73cdcb8, 0x8537e4f3f68c6d51);
    lemma_times(0xaa5b2509f86bb4d4, 0x1999998, 0x8537e4f3f68c6d51, 0xed632cce109588eb);
    lemma_square(0xaa5b2509f86bb4d4, 0x1999999, 0xed632cce109588eb, 0x567b5965f4ba919b);
    lemma_times(0xaa5b2509f86bb4d4, 0x3333332, 0x567b5965f4ba919b, 0x6b56ea33f52e376c);
    lemma_square(0xaa5b2509f86bb4d4, 0x3333333, 0x6b56ea33f52e376c, 0x3d3d6799e1ad6c21);
    lemma_square(0xaa5b2509f86bb4d4, 0x6666666, 0x3d3d6799e1ad6c21, 0x35c97d4566d027e1);
    lemma_square(0xaa5b2509f86bb4d4, 0xccccccc, 0x35c97d4566d027e1, 0x569e3eeb63aecab3);
    lemma_times(0xaa5b2509f86bb4d4, 0x19999998, 0x569e3eeb63aecab3, 0xf0e4166e6dde4ff9);
    lemma_square(0xaa5b2509f86bb4d4, 0x19999999, 0xf0e4166e6dde4ff9, 0x28264b99ef7f7674);
    lemma_times(0xaa5b2509f86bb4d4, 0x33333332, 0x28264b99ef7f7674, 0x130e07948a9d41d6);
}

/// `(7^(2^32))^((2^32 - 1) / 17)`, which is `7^((ORDER - 1) / 17)`.
proof fn lemma_power_without_17()
    ensures
        power(0xaa5b2509f86bb4d4, 0xf0f0f0f) == 0xe23ae4f949f9787a,
{
    lemma_power_one(0xaa5b2509f86bb4d4);
    lemma_square(0xaa5b2509f86bb4d4, 0x1, 0xaa5b2509f86bb4d4, 0x420265815f3416fd);
    lemma_times(0xaa5b2509f86bb4d4, 0x2, 0x420265815f3416fd, 0x11c37210161a0aa8);
    lemma_square(0xaa5b2509f86bb4d4, 0x3, 0x11c37210161a0aa8, 0x9cdae742ef128e1b);
    lemma_times(0xaa5b2509f86bb4d4, 0x6, 0x9cdae742ef128e1b, 0x3f228a16c54e4a16);
    lemma_square(0xaa5b2509f86bb4d4, 0x7, 0x3f228a16c54e4a16, 0x98e389bfd9a13543);
    lemma_times(0xaa5b2509f86bb4d4, 0xe, 0x98e389bfd9a13543, 0x9c7864a42339f298);
    lemma_square(0xaa5b2509f86bb4d4, 0xf, 0x9c7864a42339f298, 0xa77ec2f191907c3b);
    lemma_square(0xaa5b2509f86bb4d4, 0x1e, 0xa77ec2f191907c3b, 0x4b55223dc0e9c39c);
    lemma_square(0xaa5b2509f86bb4d4, 0x3c, 0x4b55223dc0e9c39c, 0xd6f3ad33a0a47eb4);
    lemma_square(0xaa5b2509f86bb4d4, 0x78, 0xd6f3ad33a0a47eb4, 0xc914996f4b149367);
    lemma_square(0xaa5b2509f86bb4d4, 0xf0, 0xc914996f4b149367, 0xa9664425ffc5d609);
    lemma_times(0xaa5b2509f86bb4d4, 0x1e0, 0xa9664425ffc5d609, 0xf78b0fd5d12cd429);
    lemma_square(0xaa5b2509f86bb4d4, 0x1e1, 0xf78b0fd5d12cd429, 0x4fb67dabd3bde14a);
    lemma_times(0xaa5b2509f86bb4d4, 0x3c2, 0x4fb67dabd3bde14a, 0xad97e3753eea185b);
    lemma_square(0xaa5b2509f86bb4d4, 0x3c3, 0xad97e3753eea185b, 0x76d9f639184cc75);
    lemma_times(0xaa5b2509f86bb4d4, 0x786, 0x76d9f639184cc75, 0xe65fcd70c090e906);
    lemma_square(0xaa5b2509f86bb4d4, 0x787, 0xe65fcd70c090e906, 0x97de452372fa8ecf);
    lemma_times(0xaa5b2509f86bb4d4, 0xf0e, 0x97de452372fa8ecf, 0xed0bef760f3b1b9d);
    lemma_square(0xaa5b2509f86bb4d4, 0xf0f, 0xed0bef760f3b1b9d, 0x86c8fcb43b82fd43);
    lemma_square(0xaa5b2509f86bb4d4, 0x1e1e, 0x86c8fcb43b82fd43, 0xfeb323d54c450756);
    lemma_square(0xaa5b2509f86bb4d4, 0x3c3c, 0xfeb323d54c450756, 0x30826fbca28430c4);
    lemma_square(0xaa5b2509f86bb4d4, 0x7878, 0x30826fbca28430c4, 0x2bf8ea52f0ed293b);
    lemma_square(0xaa5b2509f86bb4d4, 0xf0f0, 0x2bf8ea52f0ed293b, 0x327a017a42363030);
    lemma_times(0xaa5b2509f86bb4d4, 0x1e1e0, 0x327a017a42363030, 0x1e29a9072150fde3);
    lemma_square(0xaa5b2509f86bb4d4, 0x1e1e1, 0x1e29a9072150fde3, 0x8c61a51fec6a9b42);
    lemma_times(0xaa5b2509f86bb4d4, 0x3c3c2, 0x8c61a51fec6a9b42, 0x10da2f2cbac03fc2);
    lemma_square(0xaa5b2509f86bb4d4, 0x3c3c3, 0x10da2f2cbac03fc2, 0x205a9f7da18d8362);
    lemma_times(0xaa5b2509f86bb4d4, 0x78786, 0x205a9f7da18d8362, 0x4593610d936d70cc);
    lemma_square(0xaa5b2509f86bb4d4, 0x78787, 0x4593610d936d70cc, 0xaba283f988a6c278);
    lemma_times(0xaa5b2509f86bb4d4, 0xf0f0e, 0xaba283f988a6c278, 0xd07841fcb5fcb92f);
    lemma_square(0xaa5b2509f86bb4d4, 0xf0f0f, 0xd07841fcb5fcb92f, 0xb2ad619b5111bb2e);
    lemma_square(0xaa5b2509f86bb4d4, 0x1e1e1e, 0xb2ad619b5111bb2e, 0xb7090b4df6635f2e);
    lemma_square(0xaa5b2509f86bb4d4, 0x3c3c3c, 0xb7090b4df6635f2e, 0x6691872563dc0dce);
    lemma_square(0xaa5b2509f86bb4d4, 0x787878, 0x6691872563dc0dce, 0x11c22070ba6f5848);
    lemma_square(0xaa5b2509f86bb4d4, 0xf0f0f0, 0x11c22070ba6f5848, 0x41ef67123ec7e01);
    lemma_times(0xaa5b2509f86bb4d4, 0x1e1e1e0, 0x41ef67123ec7e01, 0xfabe36749567612);
    lemma_square(0xaa5b2509f86bb4d4, 0x1e1e1e1, 0xfabe36749567612, 0xf699cc181d029022);
    lemma_times(0xaa5b2509f86bb4d4, 0x3c3c3c2, 0xf699cc181d029022, 0x9e18fa1bf888eb6d);
    lemma_square(0xaa5b2509f86bb4d4, 0x3c3c3c3, 0x9e18fa1bf888eb6d, 0xdace5f1b6a4c347f);
    lemma_times(0xaa5b2509f86bb4d4, 0x7878786, 0xdace5f1b6a4c347f, 0xb9482ad5a6d525c7);
    lemma_square(0xaa5b2509f86bb4d4, 0x7878787, 0xb9482ad5a6d525c7, 0xc437fd26862708e5);
    lemma_times(0xaa5b2509f86bb4d4, 0xf0f0f0e, 0xc437fd26862708e5, 0xe23ae4f949f9787a);
}

/// `(7^(2^32))^((2^32 - 1) / 257)`, which is `7^((ORDER - 1) / 257)`.
proof fn lemma_power_without_257()
    ensures
        power(0xaa5b2509f86bb4d4, 0xff00ff) == 0xdcf40d2948736a7,
{
    lemma_power_one(0xaa5b2509f86bb4d4);
    lemma_square(0xaa5b2509f86bb4d4, 0x1, 0xaa5b2509f86bb4d4, 0x420265815f3416fd);
    lemma_times(0xaa5b2509f86bb4d4, 0x2, 0x420265815f3416fd, 0x11c37210161a0aa8);
    lemma_square(0xaa5b2509f86bb4d4, 0x3, 0x11c37210161a0aa8, 0x9cdae742ef128e1b);
    lemma_times(0xaa5b2509f86bb4d4, 0x6, 0x9cdae742ef128e1b, 0x3f228a16c54e4a16);
    lemma_square(0xaa5b2509f86bb4d4, 0x7, 0x3f228a16c54e4a16, 0x98e389bfd9a13543);
    lemma_times(0xaa5b2509f86bb4d4, 0xe, 0x98e389bfd9a13543, 0x9c7864a42339f298);
    lemma_square(0xaa5b2509f86bb4d4, 0xf, 0x9c7864a42339f298, 0xa77ec2f191907c3b);
    lemma_times(0xaa5b2509f86bb4d4, 0x1e, 0xa77ec2f191907c3b, 0x3bbcb9be397fd294);
    lemma_square(0xaa5b2509f86bb4d4, 0x1f, 0x3bbcb9be397fd294, 0xab0a82897174c190);
    lemma_times(0xaa5b2509f86bb4d4, 0x3e, 0xab0a82897174c190, 0xe38658e727be3526);
    lemma_square(0xaa5b2509f86bb4d4, 0x3f, 0xe38658e727be3526, 0xad1a358397e0900d);
    lemma_times(0xaa5b2509f86bb4d4, 0x7e, 0xad1a358397e0900d, 0x33110ac2153a2abd);
    lemma_square(0xaa5b2509f86bb4d4, 0x7f, 0x33110ac2153a2abd, 0x770bde3b99e70890);
    lemma_times(0xaa5b2509f86bb4d4, 0xfe, 0x770bde3b99e70890, 0xf41555f9bcddefbf);
    lemma_square(0xaa5b2509f86bb4d4, 0xff, 0xf41555f9bcddefbf, 0x97dc88f27b3aa5c);
    lemma_square(0xaa5b2509f86bb4d4, 0x1fe, 0x97dc88f27b3aa5c, 0x7a9fb44c2bf4d5a4);
    lemma_square(0xaa5b2509f86bb4d4, 0x3fc, 0x7a9fb44c2bf4d5a4, 0x2e90cd88c0ae8b5a);
    lemma_square(0xaa5b2509f86bb4d4, 0x7f8, 0x2e90cd88c0ae8b5a, 0xf70447bdad9eb3ca);
    lemma_square(0xaa5b2509f86bb4d4, 0xff0, 0xf70447bdad9eb3ca, 0x9b2fd4612a326a25);
    lemma_square(0xaa5b2509f86bb4d4, 0x1fe0, 0x9b2fd4612a326a25, 0x9d83ea9b136c176c);
    lemma_square(0xaa5b2509f86bb4d4, 0x3fc0, 0x9d83ea9b136c176c, 0xb93f58b144d13108);
    lemma_square(0xaa5b2509f86bb4d4, 0x7f80, 0xb93f58b144d13108, 0xbadbabefd6f6e080);
    lemma_square(0xaa5b2509f86bb4d4, 0xff00, 0xbadbabefd6f6e080, 0x2496aee88e497b29);
    lemma_times(0xaa5b2509f86bb4d4, 0x1fe00, 0x2496aee88e497b29, 0x1500c702ca003a08);
    lemma_square(0xaa5b2509f86bb4d4, 0x1fe01, 0x1500c702ca003a08, 0x8177134d9b952000);
    lemma_times(0xaa5b2509f86bb4d4, 0x3fc02, 0x8177134d9b952000, 0x3cb83962155447bb);
    lemma_square(0xaa5b2509f86bb4d4, 0x3fc03, 0x3cb83962155447bb, 0x26ea1e8a428f6546);
    lemma_times(0xaa5b2509f86bb4d4, 0x7f806, 0x26ea1e8a428f6546, 0x1df0086ef690a534);
    lemma_square(0xaa5b2509f86bb4d4, 0x7f807, 0x1df0086ef690a534, 0x59cdbc0f3d699b72);
    lemma_times(0xaa5b2509f86bb4d4, 0xff00e, 0x59cdbc0f3d699b72, 0xf9ed3b5115e26d9e);
    lemma_square(0xaa5b2509f86bb4d4, 0xff00f, 0xf9ed3b5115e26d9e, 0x2aae987e13751c08);
    lemma_times(0xaa5b2509f86bb4d4, 0x1fe01e, 0x2aae987e13751c08, 0xb1b304cefc4c55c9);
    lemma_square(0xaa5b2509f86bb4d4, 0x1fe01f, 0xb1b304cefc4c55c9, 0x41b237bf56508d5e);
    lemma_times(0xaa5b2509f86bb4d4, 0x3fc03e, 0x41b237bf56508d5e, 0xea7571abe745595c);
    lemma_square(0xaa5b2509f86bb4d4, 0x3fc03f, 0xea7571abe745595c, 0x3af4354e1fa8cd07);
    lemma_times(0xaa5b2509f86bb4d4, 0x7f807e, 0x3af4354e1fa8cd07, 0xf362f233cf59a83c);
    lemma_square(0xaa5b2509f86bb4d4, 0x7f807f, 0xf362f233cf59a83c, 0x2e2189e6d86cdb7b);
    lemma_times(0xaa5b2509f86bb4d4, 0xff00fe, 0x2e2189e6d86cdb7b, 0xdcf40d2948736a7);
}

/// `(7^(2^32))^((2^32 - 1) / 65537)`, which is `7^((ORDER - 1) / 65537)`.
proof fn lemma_power_without_65537()
    ensures
        power(0xaa5b2509f86bb4d4, 0xffff) == 0x75ab0de70cf3ed11,
{
    lemma_power_one(0xaa5b2509f86bb4d4);
    lemma_square(0xaa5b2509f86bb4d4, 0x1, 0xaa5b2509f86bb4d4, 0x420265815f3416fd);
    lemma_times(0xaa5b2509f86bb4d4, 0x2, 0x420265815f3416fd, 0x11c37210161a0aa8);
    lemma_square(0xaa5b2509f86bb4d4, 0x3, 0x11c37210161a0aa8, 0x9cdae742ef128e1b);
    lemma_times(0xaa5b2509f86bb4d4, 0x6, 0x9cdae742ef128e1b, 0x3f228a16c54e4a16);
    lemma_square(0xaa5b2509f86bb4d4, 0x7, 0x3f228a16c54e4a16, 0x98e389bfd9a13543);
    lemma_times(0xaa5b2509f86bb4d4, 0xe, 0x98e389bfd9a13543, 0x9c7864a42339f298);
    lemma_square(0xaa5b2509f86bb4d4, 0xf, 0x9c7864a42339f298, 0xa77ec2f191907c3b);
    lemma_times(0xaa5b2509f86bb4d4, 0x1e, 0xa77ec2f191907c3b, 0x3bbcb9be397fd294);
    lemma_square(0xaa5b2509f86bb4d4, 0x1f, 0x3bbcb9be397fd294, 0xab0a82897174c190);
    lemma_times(0xaa5b2509f86bb4d4, 0x3e, 0xab0a82897174c190, 0xe38658e727be3526);
    lemma_square(0xaa5b2509f86bb4d4, 0x3f, 0xe38658e727be3526, 0xad1a358397e0900d);
    lemma_times(0xaa5b2509f86bb4d4, 0x7e, 0xad1a358397e0900d, 0x33110ac2153a2abd);
    lemma_square(0xaa5b2509f86bb4d4, 0x7f, 0x33110ac2153a2abd, 0x770bde3b99e70890);
    lemma_times(0xaa5b2509f86bb4d4, 0xfe, 0x770bde3b99e70890, 0xf41555f9bcddefbf);
    lemma_square(0xaa5b2509f86bb4d4, 0xff, 0xf41555f9bcddefbf, 0x97dc88f27b3aa5c);
    lemma_times(0xaa5b2509f86bb4d4, 0x1fe, 0x97dc88f27b3aa5c, 0xbafdaf299ad5d996);
    lemma_square(0xaa5b2509f86bb4d4, 0x1ff, 0xbafdaf299ad5d996, 0x853175c896e152a7);
    lemma_times(0xaa5b2509f86bb4d4, 0x3fe, 0x853175c896e152a7, 0x2f855003f35e4188);
    lemma_square(0xaa5b2509f86bb4d4, 0x3ff, 0x2f855003f35e4188, 0x3c509076a75a2b48);
    lemma_times(0xaa5b2509f86bb4d4, 0x7fe, 0x3c509076a75a2b48, 0x2c944e74888279f3);
    lemma_square(0xaa5b2509f86bb4d4, 0x7ff, 0x2c944e74888279f3, 0xe807654d5f6a62c3);
    lemma_times(0xaa5b2509f86bb4d4, 0xffe, 0xe807654d5f6a62c3, 0x7861fc30e7b747fb);
    lemma_square(0xaa5b2509f86bb4d4, 0xfff, 0x7861fc30e7b747fb, 0x571f2b26cfbf7042);
    lemma_times(0xaa5b2509f86bb4d4, 0x1ffe, 0x571f2b26cfbf7042, 0x69acbfa74472b3f6);
    lemma_square(0xaa5b2509f86bb4d4, 0x1fff, 0x69acbfa74472b3f6, 0x75721921fb95af6c);
    lemma_times(0xaa5b2509f86bb4d4, 0x3ffe, 0x75721921fb95af6c, 0x7da3796aa870df2);
    lemma_square(0xaa5b2509f86bb4d4, 0x3fff, 0x7da3796aa870df2, 0x4201e01627c0e8fe);
    lemma_times(0xaa5b2509f86bb4d4, 0x7ffe, 0x4201e01627c0e8fe, 0x166973e1a008e402);
    lemma_square(0xaa5b2509f86bb4d4, 0x7fff, 0x166973e1a008e402, 0x1d34fff37e31f98b);
    lemma_times(0xaa5b2509f86bb4d4, 0xfffe, 0x1d34fff37e31f98b, 0x75ab0de70cf3ed11);
}

/// What the powers above say of seven: its power `ORDER - 1` is one, and
/// no power `(ORDER - 1) / q`, for a prime `q` that divides `ORDER - 1`, is.
proof fn lemma_certificate()
    ensures
        seven_to(group_order()) == 1,
        seven_to(group_order() / 2) != 1,
        seven_to(group_order() / 3) != 1,
        seven_to(group_order() / 5) != 1,
        seven_to(group_order() / 17) != 1,
        seven_to(group_order() / 257) != 1,
        seven_to(group_order() / 65537) != 1,
{
    reveal(power);
    lemma_seven_to_2_31();
    lemma_half_order_power();
    lemma_field_pow_multiplies(7, 0x8000_0000, 0xFFFF_FFFF);
    assert(seven_to(group_order() / 2) == field_order() - 1);
    lemma_field_pow_adds(7, group_order() / 2, group_order() / 2);
    assert(seven_to(group_order()) == 1);
    lemma_square(7, 0x8000_0000, 0xf1323b7acab09084, 0xaa5b2509f86bb4d4);
    lemma_power_without_3();
    lemma_field_pow_multiplies(7, 0x1_0000_0000, 0x55555555);
    lemma_power_without_5();
    lemma_field_pow_multiplies(7, 0x1_0000_0000, 0x33333333);
    lemma_power_without_17();
    lemma_field_pow_multiplies(7, 0x1_0000_0000, 0xf0f0f0f);
    lemma_power_without_257();
    lemma_field_pow_multiplies(7, 0x1_0000_0000, 0xff00ff);
    lemma_power_without_65537();
    lemma_field_pow_multiplies(7, 0x1_0000_0000, 0xffff);
}

/// A power of a power that is one is one.
proof fn lemma_power_of_one(k: nat, times: nat)
    requires
        seven_to(k) == 1,
    ensures
        seven_to(k * times) == 1,
{
    lemma_field_pow_multiplies(7, k, times);
    lemma1_pow(times);
}

/// Where two powers of seven are equal, the power of the difference of
/// their exponents is one.
proof fn lemma_cancel(i: nat, j: nat)
    requires
        i <= j,
        seven_to(i) == seven_to(j),
    ensures
        seven_to((j - i) as nat) == 1,
{
    lemma_certificate();
    let n = group_order();
    let d = (j - i) as nat;
    // `7^(i * (ORDER - 2))` is the inverse of `7^i`.
    let back = i * ((n - 1) as nat);
    assert(i + back == n * i) by (nonlinear_arith)
        requires
            back == i * (n - 1),
    ;
    lemma_power_of_one(n, i);
    lemma_field_pow_adds(7, i, back);
    assert(field_mul(seven_to(i), seven_to(back)) == 1);
    lemma_field_pow_adds(7, d, i);
    lemma_mul_assoc(seven_to(d), seven_to(i), seven_to(back));
    assert(field_mul(seven_to(d), 1) == seven_to(d));
}

/// Two exponents whose powers are one have a common divisor whose power is one.
proof fn lemma_common_order(a: nat, b: nat) -> (c: nat)
    requires
        a > 0,
        seven_to(a) == 1,
        seven_to(b) == 1,
    ensures
        c > 0,
        seven_to(c) == 1,
        a % c == 0,
        b % c == 0,
    decreases b,
{
    if b == 0 {
        lemma_multiple(a as int, 1);
        assert(a * 1 == a);
        a
    } else {
        let q = a / b;
        let rem = a % b;
        lemma_fundamental_div_mod(a as int, b as int);
        assert(b * q == (b * q) as nat) by (nonlinear_arith)
            requires
                b >= 0,
                q >= 0,
        ;
        lemma_power_of_one(b, q);
        lemma_field_pow_adds(7, b * q, rem);
        assert(field_mul(1, seven_to(rem)) == seven_to(rem));
        assert(seven_to(rem) == 1);
        let c = lemma_common_order(b, rem);
        let kb = lemma_quotient(b as int, c as int);
        let kr = lemma_quotient(rem as int, c as int);
        assert(a == c * (kb * q + kr)) by (nonlinear_arith)
            requires
                a == b * q + rem,
                b == c * kb,
                rem == c * kr,
        ;
        lemma_multiple(c as int, kb * q + kr);
        c
    }
}

/// An odd divisor of `2^k * rest` divides `rest`.
proof fn lemma_strip_twos(m: int, k: nat, rest: int)
    requires
        m > 0,
        m % 2 != 0,
        (vstd::arithmetic::power2::pow2(k) * rest) % m == 0,
    ensures
        rest % m == 0,
    decreases k,
{
    if k == 0 {
        vstd::arithmetic::power2::lemma2_to64();
        assert(1 * rest == rest);
    } else {
        vstd::arithmetic::power2::lemma_pow2_unfold(k);
        let half = vstd::arithmetic::power2::pow2((k - 1) as nat);
        assert(vstd::arithmetic::power2::pow2(k) * rest == 2 * (half * rest)) by (nonlinear_arith)
            requires
                vstd::arithmetic::power2::pow2(k) == 2 * half,
        ;
        lemma_prime_2();
        lemma_prime_factor(2, m, half * rest);
        lemma_strip_twos(m, (k - 1) as nat, rest);
    }
}

/// A divisor of `ORDER - 1` other than one is a multiple of one of its
/// prime factors.
proof fn lemma_factor(m: int) -> (q: int)
    requires
        m > 1,
        group_order() as int % m == 0,
    ensures
        q == 2 || q == 3 || q == 5 || q == 17 || q == 257 || q == 65537,
        m % q == 0,
{
    if m % 2 == 0 {
        return 2;
    }
    vstd::arithmetic::power2::lemma2_to64();
    assert(group_order() == vstd::arithmetic::power2::pow2(32) * 0xFFFF_FFFF);
    lemma_strip_twos(m, 32, 0xFFFF_FFFF);
    lemma_prime_3();
    lemma_prime_factor(3, m, 5int * 17 * 257 * 65537);
    if m % 3 == 0 {
        return 3;
    }
    lemma_prime_5();
    lemma_prime_factor(5, m, 17int * 257 * 65537);
    if m % 5 == 0 {
        return 5;
    }
    lemma_prime_17();
    lemma_prime_factor(17, m, 257int * 65537);
    if m % 17 == 0 {
        return 17;
    }
    lemma_prime_257();
    lemma_prime_factor(257, m, 65537);
    if m % 257 == 0 {
        return 257;
    }
    lemma_prime_65537();
    lemma_divisor_bound(65537, m);
    if m < 65537 {
        assert(65537int % m != 0);
    }
    lemma_multiple(65537, 1);
    65537
}

/// No positive exponent below `ORDER - 1` takes seven to one.
proof fn lemma_order_of_seven(d: nat)
    requires
        d > 0,
        seven_to(d) == 1,
    ensures
        d >= group_order(),
{
    lemma_certificate();
    let n = group_order();
    if d < n {
        let c = lemma_common_order(d, n);
        lemma_divisor_bound(d as int, c as int);
        let m = lemma_quotient(n as int, c as int);
        lemma_divisor_bound(n as int, c as int);
        assert(m > 1) by (nonlinear_arith)
            requires
                n == c * m,
                c < n,
                c > 0,
        ;
        lemma_multiple(m, c as int);
        assert((n as int) % m == 0) by {
            assert(c * m == m * c) by (nonlinear_arith);
        }
        let q = lemma_factor(m);
        let part = lemma_quotient(m, q);
        // (ORDER - 1) / q = c * (m / q)
        assert(n == q * (c * part)) by (nonlinear_arith)
            requires
                n == c * m,
                m == q * part,
        ;
        assert(part >= 0) by (nonlinear_arith)
            requires
                m == q * part,
                m > 1,
                q >= 2,
        ;
        assert(c * part >= 0) by (nonlinear_arith)
            requires
                c > 0,
                part >= 0,
        ;
        assert(n as int / q == c * part) by {
            lemma_multiple(q, c * part);
            vstd::arithmetic::div_mod::lemma_div_multiples_vanish(c * part, q);
            assert(q * (c * part) == (c * part) * q) by (nonlinear_arith);
        }
        lemma_power_of_one(c, part as nat);
        assert(seven_to((n as int / q) as nat) == 1);
    }
}

/// The powers of seven with exponents below `ORDER - 1` are pairwise different.
proof fn lemma_powers_differ(i: nat, j: nat)
    requires
        i < j < group_order(),
    ensures
        seven_to(i) != seven_to(j),
{
    if seven_to(i) == seven_to(j) {
        lemma_cancel(i, j);
        lemma_order_of_seven((j - i) as nat);
    }
}

/// A power of seven is not zero.
proof fn lemma_power_is_unit(k: nat)
    ensures
        0 < seven_to(k) < field_order(),
{
    lemma_certificate();
    let n = group_order();
    let back = k * ((n - 1) as nat);
    assert(k + back == n * k) by (nonlinear_arith)
        requires
            back == k * (n - 1),
    ;
    lemma_power_of_one(n, k);
    lemma_field_pow_adds(7, k, back);
    if seven_to(k) == 0 {
        assert(0 * seven_to(back) == 0) by (nonlinear_arith);
    }
}

/// Every element but zero is a power of seven.
pub proof fn lemma_is_power(a: int) -> (k: nat)
    requires
        0 < a < field_order(),
    ensures
        k < group_order(),
        seven_to(k) == a,
{
    let n = group_order() as int;
    let exponents = set_int_range(0, n);
    let power = |k: int| seven_to(k as nat);
    let powers = exponents.map(power);
    let elements = set_int_range(1, field_order());
    lemma_int_range(0, n);
    lemma_int_range(1, field_order());
    assert(injective_on(power, exponents)) by {
        assert forall|x: int, y: int|
            exponents.contains(x) && exponents.contains(y) && #[trigger] power(x)
                == #[trigger] power(y) implies x == y by {
            if x < y {
                lemma_powers_differ(x as nat, y as nat);
            } else if y < x {
                lemma_powers_differ(y as nat, x as nat);
            }
        }
    }
    lemma_map_size(exponents, powers, power);
    assert(powers.subset_of(elements)) by {
        assert forall|v: int| powers.contains(v) implies elements.contains(v) by {
            let k = choose|k: int| exponents.contains(k) && v == power(k);
            lemma_power_is_unit(k as nat);
        }
    }
    lemma_subset_equality(powers, elements);
    assert(elements.contains(a));
    assert(powers.contains(a));
    let k = choose|k: int| exponents.contains(k) && a == power(k);
    k as nat
}

/// Every element but zero has an inverse.
pub proof fn lemma_inverse_exists(a: int) -> (inverse: int)
    requires
        0 < a < field_order(),
    ensures
        0 < inverse < field_order(),
        field_mul(a, inverse) == 1,
{
    lemma_certificate();
    let k = lemma_is_power(a);
    let back = (group_order() - k) as nat;
    lemma_field_pow_adds(7, k, back);
    lemma_power_is_unit(back);
    seven_to(back)
}

/// The field has no zero divisors: a product of two canonical values
/// vanishes only where one of them is zero.
pub proof fn lemma_no_zero_divisors(a: int, b: int)
    requires
        0 <= a < field_order(),
        0 <= b < field_order(),
        field_mul(a, b) == 0,
    ensures
        a == 0 || b == 0,
{
    if a != 0 {
        let inverse = lemma_inverse_exists(a);
        lemma_mul_assoc(inverse, a, b);
        assert(field_mul(inverse, a) == 1) by {
            assert(inverse * a == a * inverse) by (nonlinear_arith);
        }
        assert(field_mul(1, b) == b);
        assert(inverse * 0 == 0) by (nonlinear_arith);
    }
}

/// Fermat: the power `ORDER - 1` of every element but zero is one.
pub proof fn lemma_fermat(a: int)
    requires
        0 < a < field_order(),
    ensures
        field_pow(a, group_order()) == 1,
{
    lemma_certificate();
    let k = lemma_is_power(a);
    lemma_field_pow_multiplies(7, k, group_order());
    assert(k * group_order() == group_order() * k) by (nonlinear_arith);
    lemma_power_of_one(group_order(), k);
}

} // verus!
