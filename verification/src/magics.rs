use vstd::prelude::*;

verus! {

/// For each square, by index, a multiplier that hashes the rook's relevant
/// occupancies perfectly and the number of bits of the table it needs.
pub const ROOK_MAGIC: [(u64, u32); 64] = [
    (0xb76a2db6b51796a8, 13),
    (0x78c003e007100142, 11),
    (0xd6b9fe01f4dd9d9a, 12),
    (0x57f0009727effb29, 12),
    (0xecfff1a1c80de300, 12),
    (0x34e00f121491fbf8, 12),
    (0xacc00dc593418156, 12),
    (0x5000959a495452d5, 13),
    (0x71ba80076182400c, 11),
    (0x9daf002740008705, 10),
    (0x5405736e66d8905a, 11),
    (0x9cd21642f7a2bfc0, 11),
    (0xced60e538fa9f17d, 11),
    (0xc77c8db95d4825eb, 11),
    (0x9252008dfff7ff24, 10),
    (0xa07a000184030e62, 11),
    (0x563be107f08c4dff, 12),
    (0x715e8d1733ce20b7, 11),
    (0x78f58b8e37fed5aa, 11),
    (0x32cdcd20a50d20e3, 11),
    (0x159f50f0f10e8361, 11),
    (0x67067200090600aa, 11),
    (0x734b5c000330182e, 10),
    (0x4e1072001581d70c, 11),
    (0x7d7da4e38bc5e6cd, 12),
    (0xaf590eba201956f1, 11),
    (0xde6bb30100200541, 10),
    (0x177119e1c71718d7, 11),
    (0xb42c768a6fd72590, 11),
    (0x41bd7a7d82d0db0b, 11),
    (0xcccfa814002aa710, 10),
    (0x5bf2f65a0000e6ac, 11),
    (0xf0d69c97632ecb07, 12),
    (0x1a750980c2002203, 10),
    (0xe0dcd44ef10f8402, 11),
    (0x268408f883f8b000, 11),
    (0x45b585a05f4f4f7c, 11),
    (0x94292c7dfab7ed48, 11),
    (0x09c582172c002890, 10),
    (0x7e0ea8a72e0005a4, 11),
    (0x6ba0894003a68006, 11),
    (0xc6fe9a9f9d5e0e9b, 11),
    (0xe1b8d0a5cc2f59e3, 11),
    (0xc62fc20060da0010, 10),
    (0x2fe7405dcce8bf20, 11),
    (0xefb5ffdbaeddfff0, 11),
    (0x4009e50a106c0058, 10),
    (0x9a723b2b745a0004, 11),
    (0x75ffff5e85b94450, 11),
    (0xf67fffba7e7e12f0, 10),
    (0x1eaed4200109c100, 10),
    (0x840ba100f0014b00, 10),
    (0x95ffff77515d5200, 10),
    (0x2127ff4bc8415110, 11),
    (0xe7eaf01207b81c00, 10),
    (0xaa18e84117940600, 11),
    (0x66fffee689ce02fe, 12),
    (0x1bfffce87017d1ca, 11),
    (0xa565ffb3e00d80be, 11),
    (0x947fff083092008e, 11),
    (0x353fffaee5ffbdba, 11),
    (0x3a360008241f307a, 11),
    (0x56bc6b9002183114, 11),
    (0xe7ce270084182c36, 12),
];

/// For each square, by index, a multiplier that hashes the bishop's
/// relevant occupancies perfectly and the number of bits of the table it
/// needs.
pub const BISHOP_MAGIC: [(u64, u32); 64] = [
    (0xc9e0b32f7efb37ff, 6),
    (0xbcc5efc5767ff79a, 4),
    (0xbdf044b22bf68725, 5),
    (0xcf7825efcd929f29, 5),
    (0x798c0c206fafba0b, 5),
    (0xdd220a8ffcf4be24, 5),
    (0x9c50a28a537f9f27, 4),
    (0x378bba1d8ef5ffe6, 5),
    (0x85faadad9b78efff, 4),
    (0x3be609029afd97f6, 4),
    (0xf9fdd869ffce07ce, 5),
    (0x942a3114058191bf, 5),
    (0xd9b87c1420629674, 5),
    (0xe238de02301c578f, 5),
    (0x04644b251bf87f8a, 4),
    (0x44e2b6d5376dfec6, 4),
    (0x86107b60600e779c, 5),
    (0xe1e61142652177fd, 5),
    (0x52c802b00e85a209, 7),
    (0xf878010904530057, 7),
    (0xb6a700e090402215, 7),
    (0x1396001a4113a032, 7),
    (0xed17054a14ff60dc, 5),
    (0x4907041dcb27b00c, 5),
    (0x7810c0237618b1aa, 5),
    (0xf1ff5e89387e3c06, 5),
    (0x382b7002480687e1, 7),
    (0x718da08cd046c6b6, 10),
    (0xd3af7877c05e2061, 10),
    (0xbd7f85004e00d206, 7),
    (0xdfa50c183452180e, 5),
    (0x1496034cf4e10825, 5),
    (0xf0a920a036d0349f, 5),
    (0x74762fb0ab170610, 5),
    (0xe5d1b24805d00783, 7),
    (0x58cdffaa517fea00, 10),
    (0x78a8ee38e3954c79, 10),
    (0x3a4d0b5200b5010d, 7),
    (0x0484158a09c1980d, 5),
    (0x436f2606823a04ce, 5),
    (0xce3dc3dba34cc051, 5),
    (0x98aff3e5953b8829, 5),
    (0x9523ff9710015901, 7),
    (0x7a14ad6018009d05, 7),
    (0x1be07a4602013c10, 7),
    (0x06fe22054d020201, 7),
    (0xf57ee9cce33a0942, 5),
    (0x741fb5826e5d0a00, 4),
    (0x84bff89913cd4d69, 4),
    (0x108ffc98c4cd2780, 4),
    (0x66b9fff61ef084b3, 5),
    (0xe5ff84ac20881d3a, 5),
    (0x86b5dfd06e0217c3, 5),
    (0xe9bc3d202bf3c905, 5),
    (0xc9ff7491dcd8cf7e, 4),
    (0xa0bfe9f514524727, 4),
    (0xbf47fbeeaa7939fe, 6),
    (0x508157fe864b7938, 4),
    (0x2bb52b32ea011010, 5),
    (0x168cd40c87085806, 5),
    (0xa7e927aca8306c0d, 5),
    (0xfcf6d6a8710f2a01, 5),
    (0x57ed7fb519d8a0ae, 4),
    (0xadffd1e9127f66b4, 5),
];

} // verus!
