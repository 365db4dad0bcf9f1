use vstd::prelude::*;

verus! {

/// A register of the GICv2 distributor or CPU interface, with its index in its bank.
#[derive(Debug, Copy, Clone, PartialEq, Eq, Structural)]
pub enum GicRegister {
    DistributorCtlr,
    IsEnabler(usize),
    IcEnabler(usize),
    IcPendr(usize),
    IcActiver(usize),
    IPriorityr(usize),
    ITargetsr(usize),
    Icfgr(usize),
    CpuCtlr,
    CpuPmr,
    CpuBpr,
}

/// A value to write to a register.
#[derive(Debug, Copy, Clone, PartialEq, Eq, Structural)]
pub struct RegisterWrite {
    pub register: GicRegister,
    pub value: u32,
}

/// The group-enable bits of the control registers.
pub const ENABLE_GROUPS: u32 = 0b11;

/// The number of interrupt lines a distributor whose type register holds `typer` handles.
pub open spec fn spec_nlines(typer: u32) -> int {
    32 * ((typer & 0x1f) + 1)
}

/// The writes that put the distributor and the CPU interface in a known state: interrupts off,
/// every line disabled, not pending, not active, targeted at core 0 and level-triggered, then
/// every priority accepted and both groups enabled on the CPU interface.
pub open spec fn init_writes(typer: u32, ctlr: u32) -> Seq<RegisterWrite> {
    let n = spec_nlines(typer);
    seq![RegisterWrite { register: GicRegister::DistributorCtlr, value: ctlr & !ENABLE_GROUPS }]
        + Seq::new(
        (3 * (n / 32)) as nat,
        |k: int|
            RegisterWrite {
                register: if k % 3 == 0 {
                    GicRegister::IcEnabler((k / 3) as usize)
                } else if k % 3 == 1 {
                    GicRegister::IcPendr((k / 3) as usize)
                } else {
                    GicRegister::IcActiver((k / 3) as usize)
                },
                value: 0xffff_ffff,
            },
    ) + Seq::new(
        (n / 4) as nat,
        |k: int| RegisterWrite { register: GicRegister::ITargetsr(k as usize), value: 0x0101_0101 },
    ) + Seq::new(
        (n / 16 - 1) as nat,
        |k: int| RegisterWrite { register: GicRegister::Icfgr((k + 1) as usize), value: 0 },
    ) + seq![
        RegisterWrite { register: GicRegister::CpuPmr, value: 0xff },
        RegisterWrite { register: GicRegister::CpuBpr, value: 0x0 },
        RegisterWrite { register: GicRegister::CpuCtlr, value: ENABLE_GROUPS },
    ]
}

/// A GICv2 interrupt controller: its distributor and CPU interface registers.
#[derive(Debug, Copy, Clone, PartialEq, Eq, Structural)]
pub struct GicV2 {
    pub distributor_base: usize,
    pub cpu_base: usize,
}

impl GicV2 {
    /// The controller whose registers are at these bases.
    pub fn new(distributor_base: usize, cpu_base: usize) -> (g: Self)
        ensures
            g.distributor_base == distributor_base,
            g.cpu_base == cpu_base,
    {
        Self { distributor_base, cpu_base }
    }

    /// The distributor control register once both groups of interrupts are disabled.
    pub fn disable_interrupts(&self, ctlr: u32) -> (w: RegisterWrite)
        ensures
            w == (RegisterWrite { register: GicRegister::DistributorCtlr, value: ctlr & !ENABLE_GROUPS }),
    {
        RegisterWrite { register: GicRegister::DistributorCtlr, value: ctlr & !ENABLE_GROUPS }
    }

    /// The distributor control register once both groups of interrupts are enabled.
    pub fn enable_interrupts(&self, ctlr: u32) -> (w: RegisterWrite)
        ensures
            w == (RegisterWrite { register: GicRegister::DistributorCtlr, value: ctlr | ENABLE_GROUPS }),
    {
        RegisterWrite { register: GicRegister::DistributorCtlr, value: ctlr | ENABLE_GROUPS }
    }

    /// The number of interrupt lines, from the distributor type register.
    pub fn nlines(&self, typer: u32) -> (n: usize)
        ensures
            n == spec_nlines(typer),
            32 <= n <= 1024,
    {
        let n = (typer & 0x1f) as usize;
        assert(typer & 0x1f <= 31) by (bit_vector);
        32 * (n + 1)
    }

    /// The writes that put the controller in a known state, from the distributor type and
    /// control registers.
    pub fn init_distributor(&self, typer: u32, ctlr: u32) -> (writes: Vec<RegisterWrite>)
        requires
            spec_nlines(typer) < 1024,
        ensures
            writes@ == init_writes(typer, ctlr),
    {
        let nlines = self.nlines(typer);
        let mut writes: Vec<RegisterWrite> = Vec::new();
        writes.push(self.disable_interrupts(ctlr));
        let ghost n = nlines as int;
        let ghost w0 = writes@;
        let mut i: usize = 0;
        while i < nlines / 32
            invariant
                n == nlines,
                32 <= nlines <= 1024,
                i <= nlines / 32,
                writes@ == w0 + Seq::new(
                    (3 * i) as nat,
                    |k: int|
                        RegisterWrite {
                            register: if k % 3 == 0 {
                                GicRegister::IcEnabler((k / 3) as usize)
                            } else if k % 3 == 1 {
                                GicRegister::IcPendr((k / 3) as usize)
                            } else {
                                GicRegister::IcActiver((k / 3) as usize)
                            },
                            value: 0xffff_ffff,
                        },
                ),
            decreases nlines / 32 - i,
        {
            writes.push(RegisterWrite { register: GicRegister::IcEnabler(i), value: 0xffff_ffff });
            writes.push(RegisterWrite { register: GicRegister::IcPendr(i), value: 0xffff_ffff });
            writes.push(RegisterWrite { register: GicRegister::IcActiver(i), value: 0xffff_ffff });
            i = i + 1;
        }
        let ghost w1 = writes@;
        let mut i: usize = 0;
        while i < nlines / 4
            invariant
                32 <= nlines <= 1024,
                i <= nlines / 4,
                writes@ == w1 + Seq::new(
                    i as nat,
                    |k: int| RegisterWrite { register: GicRegister::ITargetsr(k as usize), value: 0x0101_0101 },
                ),
            decreases nlines / 4 - i,
        {
            writes.push(RegisterWrite { register: GicRegister::ITargetsr(i), value: 0x0101_0101 });
            i = i + 1;
        }
        let ghost w2 = writes@;
        let mut i: usize = 1;
        while i < nlines / 16
            invariant
                32 <= nlines <= 1024,
                1 <= i <= nlines / 16,
                writes@ == w2 + Seq::new(
                    (i - 1) as nat,
                    |k: int| RegisterWrite { register: GicRegister::Icfgr((k + 1) as usize), value: 0 },
                ),
            decreases nlines / 16 - i,
        {
            writes.push(RegisterWrite { register: GicRegister::Icfgr(i), value: 0 });
            i = i + 1;
        }
        let ghost w3 = writes@;
        writes.push(RegisterWrite { register: GicRegister::CpuPmr, value: 0xff });
        writes.push(RegisterWrite { register: GicRegister::CpuBpr, value: 0x0 });
        writes.push(RegisterWrite { register: GicRegister::CpuCtlr, value: ENABLE_GROUPS });
        proof {
            assert(writes@ =~= init_writes(typer, ctlr));
        }
        writes
    }

    /// The writes that enable interrupt line `line`, given the current value of its set-enable
    /// register: its enable bit is set and its priority becomes 0x80.
    pub fn enable(&self, line: usize, isenabler: u32) -> (writes: Vec<RegisterWrite>)
        requires
            line < 1024,
        ensures
            writes@ == seq![
                RegisterWrite {
                    register: GicRegister::IsEnabler(line / 32),
                    value: isenabler | (1u32 << ((line % 32) as u32)),
                },
                RegisterWrite { register: GicRegister::IPriorityr(line), value: 0x80 },
            ],
    {
        let enable_reg_index = line >> 5;
        let enable_bit: u32 = 1u32 << ((line % 32) as u32);
        assert(line >> 5 == line / 32) by (bit_vector);
        let mut writes: Vec<RegisterWrite> = Vec::new();
        writes.push(RegisterWrite { register: GicRegister::IsEnabler(enable_reg_index), value: isenabler | enable_bit });
        writes.push(RegisterWrite { register: GicRegister::IPriorityr(line), value: 0x80 });
        proof {
            assert(writes@ =~= seq![
                RegisterWrite {
                    register: GicRegister::IsEnabler(line / 32),
                    value: isenabler | (1u32 << ((line % 32) as u32)),
                },
                RegisterWrite { register: GicRegister::IPriorityr(line), value: 0x80 },
            ]);
        }
        writes
    }
}

/// After the initialization writes, the CPU interface accepts interrupts of every priority: the
/// priority mask register is written exactly once, with 0xff, after every write to the
/// distributor, and the CPU interface is then enabled for both groups by the last write.
pub proof fn lemma_init_accepts_every_priority(typer: u32, ctlr: u32)
    ensures
        ({
            let w = init_writes(typer, ctlr);
            &&& w.len() >= 3
            &&& w[w.len() - 3] == RegisterWrite { register: GicRegister::CpuPmr, value: 0xff }
            &&& forall|i: int|
                0 <= i < w.len() && (#[trigger] w[i]).register == GicRegister::CpuPmr ==> i == w.len() - 3
                    && w[i].value == 0xff
            &&& w[w.len() - 1] == RegisterWrite { register: GicRegister::CpuCtlr, value: 0b11 }
        }),
{
    let n = spec_nlines(typer);
    assert(typer & 0x1f <= 31) by (bit_vector);
    let a = seq![RegisterWrite { register: GicRegister::DistributorCtlr, value: ctlr & !ENABLE_GROUPS }];
    let b = Seq::new(
        (3 * (n / 32)) as nat,
        |k: int|
            RegisterWrite {
                register: if k % 3 == 0 {
                    GicRegister::IcEnabler((k / 3) as usize)
                } else if k % 3 == 1 {
                    GicRegister::IcPendr((k / 3) as usize)
                } else {
                    GicRegister::IcActiver((k / 3) as usize)
                },
                value: 0xffff_ffff,
            },
    );
    let c = Seq::new(
        (n / 4) as nat,
        |k: int| RegisterWrite { register: GicRegister::ITargetsr(k as usize), value: 0x0101_0101 },
    );
    let d = Seq::new(
        (n / 16 - 1) as nat,
        |k: int| RegisterWrite { register: GicRegister::Icfgr((k + 1) as usize), value: 0 },
    );
    let e = seq![
        RegisterWrite { register: GicRegister::CpuPmr, value: 0xff },
        RegisterWrite { register: GicRegister::CpuBpr, value: 0x0 },
        RegisterWrite { register: GicRegister::CpuCtlr, value: ENABLE_GROUPS },
    ];
    let w = init_writes(typer, ctlr);
    assert(w == a + b + c + d + e);
    let front = a + b + c + d;
    assert(w == front + e);
    assert forall|i: int| 0 <= i < front.len() implies (#[trigger] front[i]).register != GicRegister::CpuPmr by {
        if i < 1 {
        } else if i < 1 + b.len() {
            assert(front[i] == b[i - 1]);
        } else if i < 1 + b.len() + c.len() {
            assert(front[i] == c[i - 1 - b.len()]);
        } else {
            assert(front[i] == d[i - 1 - b.len() - c.len()]);
        }
    }
    assert forall|i: int|
        0 <= i < w.len() && (#[trigger] w[i]).register == GicRegister::CpuPmr implies i == w.len() - 3
            && w[i].value == 0xff by {
        if i < front.len() {
            assert(w[i] == front[i]);
        } else {
            assert(w[i] == e[i - front.len()]);
        }
    }
}

} // verus!
