//! A certificate for the modulus: three, raised to half of the modulus
//! less one, leaves the modulus less one. The power is reached by repeated
//! squaring, and the table below holds every fourth step of the way.

use crate::felt::modulus;
use vstd::prelude::*;

verus! {

/// The odd factor of the modulus less one: the modulus is this number
/// times two to the power 192, plus one.
pub open spec fn odd_factor() -> nat {
    0x800000000000011
}

/// Two to the power 191.
pub open spec fn two_191() -> nat {
    0x800000000000000000000000000000000000000000000000nat
}

/// Two to the power 192.
pub open spec fn two_192() -> nat {
    0x1000000000000000000000000000000000000000000000000nat
}

/// One squaring modulo the modulus.
#[verifier::inline]
pub open spec fn sq(x: nat) -> nat {
    (x * x) % 0x800000000000011000000000000000000000000000000000000000000000001nat
}

/// Two squarings modulo the modulus.
#[verifier::inline]
pub open spec fn sq2(x: nat) -> nat {
    sq(sq(x))
}

/// Four squarings modulo the modulus.
#[verifier::inline]
pub open spec fn sq4(x: nat) -> nat {
    sq2(sq2(x))
}

/// `x` after `t` squarings modulo the modulus.
pub open spec fn squarings(x: nat, t: nat) -> nat
    decreases t,
{
    if t == 0 {
        x
    } else {
        sq(squarings(x, (t - 1) as nat))
    }
}

/// One more squaring.
proof fn lemma_squarings_1(x: nat, t: nat, y: nat)
    requires
        squarings(x, t) == y,
    ensures
        squarings(x, t + 1) == sq(y),
{
}

/// Two more squarings.
proof fn lemma_squarings_2(x: nat, t: nat, y: nat)
    requires
        squarings(x, t) == y,
    ensures
        squarings(x, t + 2) == sq2(y),
{
    lemma_squarings_1(x, t, y);
    lemma_squarings_1(x, t + 1, sq(y));
}

/// Four more squarings.
proof fn lemma_squarings_4(x: nat, t: nat, y: nat)
    requires
        squarings(x, t) == y,
    ensures
        squarings(x, t + 4) == sq4(y),
{
    lemma_squarings_2(x, t, y);
    lemma_squarings_2(x, t + 2, sq2(y));
}

/// Three, squared 4 times.
#[verifier::inline]
pub open spec fn three_4() -> nat {
    0x290d741nat
}

/// Three, squared 8 times.
#[verifier::inline]
pub open spec fn three_8() -> nat {
    0x27c781843aa2707fed24281579b1a4e02a96ce222db9c1cc3a40ce964bdc927nat
}

/// Three, squared 12 times.
#[verifier::inline]
pub open spec fn three_12() -> nat {
    0x7f1976c204c4e7b0f32cba63a75c20c216df6811be71f67ab45e1124d25471fnat
}

/// Three, squared 16 times.
#[verifier::inline]
pub open spec fn three_16() -> nat {
    0x1d491bcd0b49c31c7d79e3c2a83f944e83382c657eb7470a83df7d42260847fnat
}

/// Three, squared 20 times.
#[verifier::inline]
pub open spec fn three_20() -> nat {
    0x7d1f826a58203029c590df22cb2175cb1be02737bd6e1603a213460cdeb6a78nat
}

/// Three, squared 24 times.
#[verifier::inline]
pub open spec fn three_24() -> nat {
    0x356919cb9565444e7b440e66b431c3496d27f23f7651ce0406b96794b396104nat
}

/// Three, squared 28 times.
#[verifier::inline]
pub open spec fn three_28() -> nat {
    0xb4c8253c46ca73aca471dbe1db3d574b0ea80870629132177bc5dba4e4ab35nat
}

/// Three, squared 32 times.
#[verifier::inline]
pub open spec fn three_32() -> nat {
    0x6616b5a012ed059a36a54e439c429aa5a5b663a6ae7faa15969d397e529674dnat
}

/// Three, squared 36 times.
#[verifier::inline]
pub open spec fn three_36() -> nat {
    0x55f2a3b7226e21c2bf6950869677d21940944ca7963e46a54c0bf8e7aba59d6nat
}

/// Three, squared 40 times.
#[verifier::inline]
pub open spec fn three_40() -> nat {
    0x52973f01e0c7fa98027fe4235092f26e1f55552fb8758ad60f8055dfb5a5824nat
}

/// Three, squared 44 times.
#[verifier::inline]
pub open spec fn three_44() -> nat {
    0x746222f24ebebac3bf69689f4f6cbc236b6c0d7b5c7fc185be9030d07e9c6cfnat
}

/// Three, squared 48 times.
#[verifier::inline]
pub open spec fn three_48() -> nat {
    0x3625b5b4e185d5129f7862ead2026410386cea81860539be1cfe2a492aadf11nat
}

/// Three, squared 52 times.
#[verifier::inline]
pub open spec fn three_52() -> nat {
    0x3a8e234c22ba7cd2019f0f4f81643fb63e459f069d13249facbef9dbeedd29fnat
}

/// Three, squared 56 times.
#[verifier::inline]
pub open spec fn three_56() -> nat {
    0x51099d9c605b6cbabbb3e2d762985d2519f76a7c734e2f63a08a74da44703d5nat
}

/// Three, squared 58 times.
#[verifier::inline]
pub open spec fn three_58() -> nat {
    0x59503878b8ae0178c78b92d276f0a1a4eb942c5ea2adf6702e9b378fdb4a1e7nat
}

/// Three, squared 59 times.
#[verifier::inline]
pub open spec fn three_59() -> nat {
    0x64432339b4e52e3ec3bf4065860ba5fed2e23e3c446d579bc111baa0d16d27nat
}

/// Three to the power of the odd factor.
#[verifier::inline]
pub open spec fn witness() -> nat {
    0x5282db87529cfa3f0464519c8b0fa5ad187148e11a61616070024f42f8ef94nat
}

/// The witness, squared 4 times.
#[verifier::inline]
pub open spec fn witness_4() -> nat {
    0x7709cc3f421a10d914017ea2f0c24719ca9d2692beb71a6e040769692f8ac25nat
}

/// The witness, squared 8 times.
#[verifier::inline]
pub open spec fn witness_8() -> nat {
    0x22f575e112a2c4d946813e30f331903ef2990c6729d40e2123e992e31d48a82nat
}

/// The witness, squared 12 times.
#[verifier::inline]
pub open spec fn witness_12() -> nat {
    0x26064139b92e036e3f5c599bbc94c16778ba471a45d785f664252897cc1083dnat
}

/// The witness, squared 16 times.
#[verifier::inline]
pub open spec fn witness_16() -> nat {
    0x4b9cb49b478c12a88ed5b7b848605cfd0744ddc522944901181eb951524ad8cnat
}

/// The witness, squared 20 times.
#[verifier::inline]
pub open spec fn witness_20() -> nat {
    0x3745ca5cc625a0b10b1b3db9be0aef564f4bbd26f29053dc04dc48c005a1d86nat
}

/// The witness, squared 24 times.
#[verifier::inline]
pub open spec fn witness_24() -> nat {
    0x247ecf52fe8be1fa8114ab3c94862af5a6b430dec205dcdbff2f4e60cc5cbf4nat
}

/// The witness, squared 28 times.
#[verifier::inline]
pub open spec fn witness_28() -> nat {
    0x7ce12e47503ddc334ca7cb60795844b7ee777e1736a1659e70206135bd84f3enat
}

/// The witness, squared 32 times.
#[verifier::inline]
pub open spec fn witness_32() -> nat {
    0x4f4fae1524c29441dbfd6794692f803ddcf6d66be90d67e9412a9f3df1d9004nat
}

/// The witness, squared 36 times.
#[verifier::inline]
pub open spec fn witness_36() -> nat {
    0x2f187e162cfacb26b399ae073edc56f2d84c4c208f1b99b30e067ccab76a462nat
}

/// The witness, squared 40 times.
#[verifier::inline]
pub open spec fn witness_40() -> nat {
    0x51dbe40b55b06ccba80ffda2ae70678be651dd1cf739179cfe50d9005903be3nat
}

/// The witness, squared 44 times.
#[verifier::inline]
pub open spec fn witness_44() -> nat {
    0x78679d63a3ecc280b51a085e58e209451f02e33e2e116095604b398a7dae551nat
}

/// The witness, squared 48 times.
#[verifier::inline]
pub open spec fn witness_48() -> nat {
    0x5cc1cc672a31ef19372af4e145cef8c5ee3ac6f3d52698169b8f4dfcbd4ba67nat
}

/// The witness, squared 52 times.
#[verifier::inline]
pub open spec fn witness_52() -> nat {
    0x794ed388971b70e27a7ffeb9e9462dc616a47d66aa9c29a3ca61d9e046b49b2nat
}

/// The witness, squared 56 times.
#[verifier::inline]
pub open spec fn witness_56() -> nat {
    0x6309a6bc57feea2d228b1f9373f622223097a65768e2cb37ffa095dceb3dffdnat
}

/// The witness, squared 60 times.
#[verifier::inline]
pub open spec fn witness_60() -> nat {
    0xe1919f0c4bc4bebaa2335967f20d255a1787ba915c1c7047892f3b45aa1b58nat
}

/// The witness, squared 64 times.
#[verifier::inline]
pub open spec fn witness_64() -> nat {
    0x56c235baead3486249b2a4a489481f05ae32099ff8786899c46a0d82ccc89anat
}

/// The witness, squared 68 times.
#[verifier::inline]
pub open spec fn witness_68() -> nat {
    0x419cb7f7f7738114c64d050d7d21267f191fd60374be67a1da52b0aba4060anat
}

/// The witness, squared 72 times.
#[verifier::inline]
pub open spec fn witness_72() -> nat {
    0x4b4757de1261bff7bd468872e4228034dcf39325d4233b0de558d1613ee028cnat
}

/// The witness, squared 76 times.
#[verifier::inline]
pub open spec fn witness_76() -> nat {
    0x16b03c927c81bdd10d4a8d04f0bb72739d57dd675cfaa7ee42676b09583f023nat
}

/// The witness, squared 80 times.
#[verifier::inline]
pub open spec fn witness_80() -> nat {
    0x42c8871ea85f2ecbcba6ac1bdb3834a4e2e298fa484586841d351cd9065f8eenat
}

/// The witness, squared 84 times.
#[verifier::inline]
pub open spec fn witness_84() -> nat {
    0x74ffc4d220fc7db571dbdb926e5d4354cf688cf5ac103a0cbadd8ada5c0dca4nat
}

/// The witness, squared 88 times.
#[verifier::inline]
pub open spec fn witness_88() -> nat {
    0x7913b17c60939127aa46ad086b82de771329f695f3fb72adb150649bea42f88nat
}

/// The witness, squared 92 times.
#[verifier::inline]
pub open spec fn witness_92() -> nat {
    0x36026557e531b52198de3470c8661cb0c37dca27bbe087de1462ca639759f39nat
}

/// The witness, squared 96 times.
#[verifier::inline]
pub open spec fn witness_96() -> nat {
    0x19fa1f95266715130d97769c946ab30040470c480339f392810d2b47dac5d19nat
}

/// The witness, squared 100 times.
#[verifier::inline]
pub open spec fn witness_100() -> nat {
    0x5e88acbfdd73a36a2bd1d0671a0cdd222c99c9f5eac45882413e92cd772d637nat
}

/// The witness, squared 104 times.
#[verifier::inline]
pub open spec fn witness_104() -> nat {
    0x3761a4f5990b523acda84182a069b18d04f1eebbfee24ac4c69edd957269216nat
}

/// The witness, squared 108 times.
#[verifier::inline]
pub open spec fn witness_108() -> nat {
    0x31261d0ab40d7e4700766e17117c44a37c4a361aa690d1f82d06d783a41158anat
}

/// The witness, squared 112 times.
#[verifier::inline]
pub open spec fn witness_112() -> nat {
    0x6263e1e108eec6a19935b68cc9d9b24d43bcf85471f947e12680395c2ba0f23nat
}

/// The witness, squared 116 times.
#[verifier::inline]
pub open spec fn witness_116() -> nat {
    0x69d8f0ce28baf8aeeedaa59b8183a1dc5daaff481ebc11719cd1b4e1824b92cnat
}

/// The witness, squared 120 times.
#[verifier::inline]
pub open spec fn witness_120() -> nat {
    0x712858b12d620d861aab25e0d732fdbd3616cb157a1cdecb9d70015f246c901nat
}

/// The witness, squared 124 times.
#[verifier::inline]
pub open spec fn witness_124() -> nat {
    0x13336c10fc8b5226f8987e37b429f7100f4a1285fd9edca448fff073e257b43nat
}

/// The witness, squared 128 times.
#[verifier::inline]
pub open spec fn witness_128() -> nat {
    0x114a27896d1fe4c5be965ba8dd54dbe7d3eef8ba72b1f03b0a6628d72fb8b0dnat
}

/// The witness, squared 132 times.
#[verifier::inline]
pub open spec fn witness_132() -> nat {
    0x759502052fe197918729111f59deccccb704d0fd6fc96251d2b75385f65c188nat
}

/// The witness, squared 136 times.
#[verifier::inline]
pub open spec fn witness_136() -> nat {
    0x147819bc9a18a1cfd1de1f92c5db3a45327d617477d39beefa724771cc4133cnat
}

/// The witness, squared 140 times.
#[verifier::inline]
pub open spec fn witness_140() -> nat {
    0x593fcefc33590efc565794d54acb87c99f4d1a0c71ccc0d39bc513194ceaf98nat
}

/// The witness, squared 144 times.
#[verifier::inline]
pub open spec fn witness_144() -> nat {
    0x30a2e815081f7d927f73df497923b55d38dbf3801c203cee2bf6c4b68bc148cnat
}

/// The witness, squared 148 times.
#[verifier::inline]
pub open spec fn witness_148() -> nat {
    0x41ed5ed684fdb65a4b4eb09a3db81cdcd942bbdbb11fb86b640956fc3111bcbnat
}

/// The witness, squared 152 times.
#[verifier::inline]
pub open spec fn witness_152() -> nat {
    0x66d3f613676644e7fd3b59b4d1be159d5c3359362a1db767d13e948f39cd3e8nat
}

/// The witness, squared 156 times.
#[verifier::inline]
pub open spec fn witness_156() -> nat {
    0x685db923d7f5ae64f24ab196896a559860d442c8aea6ff765a19cf408a616fcnat
}

/// The witness, squared 160 times.
#[verifier::inline]
pub open spec fn witness_160() -> nat {
    0x50732ed0be8ced2fea566de48221e1a719252eb81c43de5c129d0f1d3ce8992nat
}

/// The witness, squared 164 times.
#[verifier::inline]
pub open spec fn witness_164() -> nat {
    0x57a797181c06d8427145cb66056f032751615d8617c5468258e96d2bb6422f9nat
}

/// The witness, squared 168 times.
#[verifier::inline]
pub open spec fn witness_168() -> nat {
    0x71a47b8174a8e80e643d3ead664f4da1ad6f3beddc0f211f6b1348877156db2nat
}

/// The witness, squared 172 times.
#[verifier::inline]
pub open spec fn witness_172() -> nat {
    0x594beafca8a00d9581d81caee93dc85c727c9af7fc4c648e3d47b998574e81fnat
}

/// The witness, squared 176 times.
#[verifier::inline]
pub open spec fn witness_176() -> nat {
    0x1eb6d849978ee09b9d2cd854901fab81646d633f51eddbc80ee9837309d9da9nat
}

/// The witness, squared 180 times.
#[verifier::inline]
pub open spec fn witness_180() -> nat {
    0x3d14df6ec477cfc061f4256749ae3ddb5375bc91ee171f9273dbbc7afd187fnat
}

/// The witness, squared 184 times.
#[verifier::inline]
pub open spec fn witness_184() -> nat {
    0xc92ecbfd121b58bc7924d5dd51a717c4d78992d0e87cd59f1bc8d7ff0cb347nat
}

/// The witness, squared 188 times.
#[verifier::inline]
pub open spec fn witness_188() -> nat {
    0x5ec467b88826aba4537602d514425f3b0bdf467bbf302458337c45f6021e539nat
}

/// The witness, squared 190 times.
#[verifier::inline]
pub open spec fn witness_190() -> nat {
    0x625023929a2995b533120664329f8c7c5268e56ac8320da2a616626f41337e3nat
}

/// Three squared 59 times.
pub proof fn lemma_three_chain()
    ensures
        squarings(3, 59) == three_59(),
{
    assert(sq4(3) == three_4()) by (nonlinear_arith);
    lemma_squarings_4(3, 0, 3);
    assert(sq4(three_4()) == three_8()) by (nonlinear_arith);
    lemma_squarings_4(3, 4, three_4());
    assert(sq4(three_8()) == three_12()) by (nonlinear_arith);
    lemma_squarings_4(3, 8, three_8());
    assert(sq4(three_12()) == three_16()) by (nonlinear_arith);
    lemma_squarings_4(3, 12, three_12());
    assert(sq4(three_16()) == three_20()) by (nonlinear_arith);
    lemma_squarings_4(3, 16, three_16());
    assert(sq4(three_20()) == three_24()) by (nonlinear_arith);
    lemma_squarings_4(3, 20, three_20());
    assert(sq4(three_24()) == three_28()) by (nonlinear_arith);
    lemma_squarings_4(3, 24, three_24());
    assert(sq4(three_28()) == three_32()) by (nonlinear_arith);
    lemma_squarings_4(3, 28, three_28());
    assert(sq4(three_32()) == three_36()) by (nonlinear_arith);
    lemma_squarings_4(3, 32, three_32());
    assert(sq4(three_36()) == three_40()) by (nonlinear_arith);
    lemma_squarings_4(3, 36, three_36());
    assert(sq4(three_40()) == three_44()) by (nonlinear_arith);
    lemma_squarings_4(3, 40, three_40());
    assert(sq4(three_44()) == three_48()) by (nonlinear_arith);
    lemma_squarings_4(3, 44, three_44());
    assert(sq4(three_48()) == three_52()) by (nonlinear_arith);
    lemma_squarings_4(3, 48, three_48());
    assert(sq4(three_52()) == three_56()) by (nonlinear_arith);
    lemma_squarings_4(3, 52, three_52());
    assert(sq2(three_56()) == three_58()) by (nonlinear_arith);
    lemma_squarings_2(3, 56, three_56());
    assert(sq(three_58()) == three_59()) by (nonlinear_arith);
    lemma_squarings_1(3, 58, three_58());
}

/// The witness squared 191 times is the modulus less one.
pub proof fn lemma_witness_chain()
    ensures
        squarings(witness(), 191) == modulus() - 1,
{
    assert(sq4(witness()) == witness_4()) by (nonlinear_arith);
    lemma_squarings_4(witness(), 0, witness());
    assert(sq4(witness_4()) == witness_8()) by (nonlinear_arith);
    lemma_squarings_4(witness(), 4, witness_4());
    assert(sq4(witness_8()) == witness_12()) by (nonlinear_arith);
    lemma_squarings_4(witness(), 8, witness_8());
    assert(sq4(witness_12()) == witness_16()) by (nonlinear_arith);
    lemma_squarings_4(witness(), 12, witness_12());
    assert(sq4(witness_16()) == witness_20()) by (nonlinear_arith);
    lemma_squarings_4(witness(), 16, witness_16());
    assert(sq4(witness_20()) == witness_24()) by (nonlinear_arith);
    lemma_squarings_4(witness(), 20, witness_20());
    assert(sq4(witness_24()) == witness_28()) by (nonlinear_arith);
    lemma_squarings_4(witness(), 24, witness_24());
    assert(sq4(witness_28()) == witness_32()) by (nonlinear_arith);
    lemma_squarings_4(witness(), 28, witness_28());
    assert(sq4(witness_32()) == witness_36()) by (nonlinear_arith);
    lemma_squarings_4(witness(), 32, witness_32());
    assert(sq4(witness_36()) == witness_40()) by (nonlinear_arith);
    lemma_squarings_4(witness(), 36, witness_36());
    assert(sq4(witness_40()) == witness_44()) by (nonlinear_arith);
    lemma_squarings_4(witness(), 40, witness_40());
    assert(sq4(witness_44()) == witness_48()) by (nonlinear_arith);
    lemma_squarings_4(witness(), 44, witness_44());
    assert(sq4(witness_48()) == witness_52()) by (nonlinear_arith);
    lemma_squarings_4(witness(), 48, witness_48());
    assert(sq4(witness_52()) == witness_56()) by (nonlinear_arith);
    lemma_squarings_4(witness(), 52, witness_52());
    assert(sq4(witness_56()) == witness_60()) by (nonlinear_arith);
    lemma_squarings_4(witness(), 56, witness_56());
    assert(sq4(witness_60()) == witness_64()) by (nonlinear_arith);
    lemma_squarings_4(witness(), 60, witness_60());
    assert(sq4(witness_64()) == witness_68()) by (nonlinear_arith);
    lemma_squarings_4(witness(), 64, witness_64());
    assert(sq4(witness_68()) == witness_72()) by (nonlinear_arith);
    lemma_squarings_4(witness(), 68, witness_68());
    assert(sq4(witness_72()) == witness_76()) by (nonlinear_arith);
    lemma_squarings_4(witness(), 72, witness_72());
    assert(sq4(witness_76()) == witness_80()) by (nonlinear_arith);
    lemma_squarings_4(witness(), 76, witness_76());
    assert(sq4(witness_80()) == witness_84()) by (nonlinear_arith);
    lemma_squarings_4(witness(), 80, witness_80());
    assert(sq4(witness_84()) == witness_88()) by (nonlinear_arith);
    lemma_squarings_4(witness(), 84, witness_84());
    assert(sq4(witness_88()) == witness_92()) by (nonlinear_arith);
    lemma_squarings_4(witness(), 88, witness_88());
    assert(sq4(witness_92()) == witness_96()) by (nonlinear_arith);
    lemma_squarings_4(witness(), 92, witness_92());
    assert(sq4(witness_96()) == witness_100()) by (nonlinear_arith);
    lemma_squarings_4(witness(), 96, witness_96());
    assert(sq4(witness_100()) == witness_104()) by (nonlinear_arith);
    lemma_squarings_4(witness(), 100, witness_100());
    assert(sq4(witness_104()) == witness_108()) by (nonlinear_arith);
    lemma_squarings_4(witness(), 104, witness_104());
    assert(sq4(witness_108()) == witness_112()) by (nonlinear_arith);
    lemma_squarings_4(witness(), 108, witness_108());
    assert(sq4(witness_112()) == witness_116()) by (nonlinear_arith);
    lemma_squarings_4(witness(), 112, witness_112());
    assert(sq4(witness_116()) == witness_120()) by (nonlinear_arith);
    lemma_squarings_4(witness(), 116, witness_116());
    assert(sq4(witness_120()) == witness_124()) by (nonlinear_arith);
    lemma_squarings_4(witness(), 120, witness_120());
    assert(sq4(witness_124()) == witness_128()) by (nonlinear_arith);
    lemma_squarings_4(witness(), 124, witness_124());
    assert(sq4(witness_128()) == witness_132()) by (nonlinear_arith);
    lemma_squarings_4(witness(), 128, witness_128());
    assert(sq4(witness_132()) == witness_136()) by (nonlinear_arith);
    lemma_squarings_4(witness(), 132, witness_132());
    assert(sq4(witness_136()) == witness_140()) by (nonlinear_arith);
    lemma_squarings_4(witness(), 136, witness_136());
    assert(sq4(witness_140()) == witness_144()) by (nonlinear_arith);
    lemma_squarings_4(witness(), 140, witness_140());
    assert(sq4(witness_144()) == witness_148()) by (nonlinear_arith);
    lemma_squarings_4(witness(), 144, witness_144());
    assert(sq4(witness_148()) == witness_152()) by (nonlinear_arith);
    lemma_squarings_4(witness(), 148, witness_148());
    assert(sq4(witness_152()) == witness_156()) by (nonlinear_arith);
    lemma_squarings_4(witness(), 152, witness_152());
    assert(sq4(witness_156()) == witness_160()) by (nonlinear_arith);
    lemma_squarings_4(witness(), 156, witness_156());
    assert(sq4(witness_160()) == witness_164()) by (nonlinear_arith);
    lemma_squarings_4(witness(), 160, witness_160());
    assert(sq4(witness_164()) == witness_168()) by (nonlinear_arith);
    lemma_squarings_4(witness(), 164, witness_164());
    assert(sq4(witness_168()) == witness_172()) by (nonlinear_arith);
    lemma_squarings_4(witness(), 168, witness_168());
    assert(sq4(witness_172()) == witness_176()) by (nonlinear_arith);
    lemma_squarings_4(witness(), 172, witness_172());
    assert(sq4(witness_176()) == witness_180()) by (nonlinear_arith);
    lemma_squarings_4(witness(), 176, witness_176());
    assert(sq4(witness_180()) == witness_184()) by (nonlinear_arith);
    lemma_squarings_4(witness(), 180, witness_180());
    assert(sq4(witness_184()) == witness_188()) by (nonlinear_arith);
    lemma_squarings_4(witness(), 184, witness_184());
    assert(sq2(witness_188()) == witness_190()) by (nonlinear_arith);
    lemma_squarings_2(witness(), 188, witness_188());
    assert(sq(witness_190()) == 0x800000000000011000000000000000000000000000000000000000000000000nat) by (nonlinear_arith);
    lemma_squarings_1(witness(), 190, witness_190());
}

} // verus!
