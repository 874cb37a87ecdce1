//! The two register files of x86-64, each with its hardware encoding.

use vstd::prelude::*;

verus! {

/// General-purpose registers, declared in the order of their encoding.
#[derive(Copy, Clone, Debug, PartialEq, Eq, Hash, Structural)]
pub enum GPR {
    RAX,
    RCX,
    RDX,
    RBX,
    RSP,
    RBP,
    RSI,
    RDI,
    R8,
    R9,
    R10,
    R11,
    R12,
    R13,
    R14,
    R15,
}

/// Vector registers, declared in the order of their encoding.
#[derive(Copy, Clone, Debug, PartialEq, Eq, Hash, Structural)]
pub enum XMM {
    XMM0,
    XMM1,
    XMM2,
    XMM3,
    XMM4,
    XMM5,
    XMM6,
    XMM7,
    XMM8,
    XMM9,
    XMM10,
    XMM11,
    XMM12,
    XMM13,
    XMM14,
    XMM15,
}

impl GPR {
    /// The encoding of the register: its position in the register file.
    pub open spec fn index(self) -> u8 {
        match self {
            GPR::RAX => 0,
            GPR::RCX => 1,
            GPR::RDX => 2,
            GPR::RBX => 3,
            GPR::RSP => 4,
            GPR::RBP => 5,
            GPR::RSI => 6,
            GPR::RDI => 7,
            GPR::R8 => 8,
            GPR::R9 => 9,
            GPR::R10 => 10,
            GPR::R11 => 11,
            GPR::R12 => 12,
            GPR::R13 => 13,
            GPR::R14 => 14,
            GPR::R15 => 15,
        }
    }

    /// The register with encoding `r`, if there is one.
    pub open spec fn of_index(r: u8) -> Option<GPR> {
        if r == 0 {
            Some(GPR::RAX)
        } else if r == 1 {
            Some(GPR::RCX)
        } else if r == 2 {
            Some(GPR::RDX)
        } else if r == 3 {
            Some(GPR::RBX)
        } else if r == 4 {
            Some(GPR::RSP)
        } else if r == 5 {
            Some(GPR::RBP)
        } else if r == 6 {
            Some(GPR::RSI)
        } else if r == 7 {
            Some(GPR::RDI)
        } else if r == 8 {
            Some(GPR::R8)
        } else if r == 9 {
            Some(GPR::R9)
        } else if r == 10 {
            Some(GPR::R10)
        } else if r == 11 {
            Some(GPR::R11)
        } else if r == 12 {
            Some(GPR::R12)
        } else if r == 13 {
            Some(GPR::R13)
        } else if r == 14 {
            Some(GPR::R14)
        } else if r == 15 {
            Some(GPR::R15)
        } else {
            None
        }
    }

    /// How many general-purpose registers there are.
    pub fn num_gprs() -> (n: usize)
        ensures
            n == 16,
            forall|g: GPR| (#[trigger] g.index()) < n,
    {
        16
    }

    /// The encoding of the register.
    pub fn repr(self) -> (r: u8)
        ensures
            r == self.index(),
            r < 16,
            GPR::of_index(r) == Some(self),
    {
        match self {
            GPR::RAX => 0,
            GPR::RCX => 1,
            GPR::RDX => 2,
            GPR::RBX => 3,
            GPR::RSP => 4,
            GPR::RBP => 5,
            GPR::RSI => 6,
            GPR::RDI => 7,
            GPR::R8 => 8,
            GPR::R9 => 9,
            GPR::R10 => 10,
            GPR::R11 => 11,
            GPR::R12 => 12,
            GPR::R13 => 13,
            GPR::R14 => 14,
            GPR::R15 => 15,
        }
    }

    /// The register with encoding `r`; `None` for a number that encodes no
    /// register.
    pub fn from_repr(r: u8) -> (g: Option<GPR>)
        ensures
            g == GPR::of_index(r),
            g is Some <==> r < 16,
            g matches Some(x) ==> x.index() == r,
    {
        match r {
            0 => Some(GPR::RAX),
            1 => Some(GPR::RCX),
            2 => Some(GPR::RDX),
            3 => Some(GPR::RBX),
            4 => Some(GPR::RSP),
            5 => Some(GPR::RBP),
            6 => Some(GPR::RSI),
            7 => Some(GPR::RDI),
            8 => Some(GPR::R8),
            9 => Some(GPR::R9),
            10 => Some(GPR::R10),
            11 => Some(GPR::R11),
            12 => Some(GPR::R12),
            13 => Some(GPR::R13),
            14 => Some(GPR::R14),
            15 => Some(GPR::R15),
            _ => None,
        }
    }
}

impl XMM {
    /// The encoding of the register: its position in the register file.
    pub open spec fn index(self) -> u8 {
        match self {
            XMM::XMM0 => 0,
            XMM::XMM1 => 1,
            XMM::XMM2 => 2,
            XMM::XMM3 => 3,
            XMM::XMM4 => 4,
            XMM::XMM5 => 5,
            XMM::XMM6 => 6,
            XMM::XMM7 => 7,
            XMM::XMM8 => 8,
            XMM::XMM9 => 9,
            XMM::XMM10 => 10,
            XMM::XMM11 => 11,
            XMM::XMM12 => 12,
            XMM::XMM13 => 13,
            XMM::XMM14 => 14,
            XMM::XMM15 => 15,
        }
    }

    /// The register with encoding `r`, if there is one.
    pub open spec fn of_index(r: u8) -> Option<XMM> {
        if r == 0 {
            Some(XMM::XMM0)
        } else if r == 1 {
            Some(XMM::XMM1)
        } else if r == 2 {
            Some(XMM::XMM2)
        } else if r == 3 {
            Some(XMM::XMM3)
        } else if r == 4 {
            Some(XMM::XMM4)
        } else if r == 5 {
            Some(XMM::XMM5)
        } else if r == 6 {
            Some(XMM::XMM6)
        } else if r == 7 {
            Some(XMM::XMM7)
        } else if r == 8 {
            Some(XMM::XMM8)
        } else if r == 9 {
            Some(XMM::XMM9)
        } else if r == 10 {
            Some(XMM::XMM10)
        } else if r == 11 {
            Some(XMM::XMM11)
        } else if r == 12 {
            Some(XMM::XMM12)
        } else if r == 13 {
            Some(XMM::XMM13)
        } else if r == 14 {
            Some(XMM::XMM14)
        } else if r == 15 {
            Some(XMM::XMM15)
        } else {
            None
        }
    }

    /// How many vector registers there are.
    pub fn num_xmms() -> (n: usize)
        ensures
            n == 16,
            forall|x: XMM| (#[trigger] x.index()) < n,
    {
        16
    }

    /// The encoding of the register.
    pub fn repr(self) -> (r: u8)
        ensures
            r == self.index(),
            r < 16,
            XMM::of_index(r) == Some(self),
    {
        match self {
            XMM::XMM0 => 0,
            XMM::XMM1 => 1,
            XMM::XMM2 => 2,
            XMM::XMM3 => 3,
            XMM::XMM4 => 4,
            XMM::XMM5 => 5,
            XMM::XMM6 => 6,
            XMM::XMM7 => 7,
            XMM::XMM8 => 8,
            XMM::XMM9 => 9,
            XMM::XMM10 => 10,
            XMM::XMM11 => 11,
            XMM::XMM12 => 12,
            XMM::XMM13 => 13,
            XMM::XMM14 => 14,
            XMM::XMM15 => 15,
        }
    }

    /// The register with encoding `r`; `None` for a number that encodes no
    /// register.
    pub fn from_repr(r: u8) -> (x: Option<XMM>)
        ensures
            x == XMM::of_index(r),
            x is Some <==> r < 16,
            x matches Some(y) ==> y.index() == r,
    {
        match r {
            0 => Some(XMM::XMM0),
            1 => Some(XMM::XMM1),
            2 => Some(XMM::XMM2),
            3 => Some(XMM::XMM3),
            4 => Some(XMM::XMM4),
            5 => Some(XMM::XMM5),
            6 => Some(XMM::XMM6),
            7 => Some(XMM::XMM7),
            8 => Some(XMM::XMM8),
            9 => Some(XMM::XMM9),
            10 => Some(XMM::XMM10),
            11 => Some(XMM::XMM11),
            12 => Some(XMM::XMM12),
            13 => Some(XMM::XMM13),
            14 => Some(XMM::XMM14),
            15 => Some(XMM::XMM15),
            _ => None,
        }
    }
}

} // verus!
