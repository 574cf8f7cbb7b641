//! Hardware driver assembly and linker scripts.

use vstd::prelude::*;
use crate::cstar::pir::{MemoryMap, SchedulerConfig, Vector, vectors_of, VectorTableEntry};
use crate::text::{dec, hex, push_dec, push_hex, same, text};

verus! {

// ---------------------------------------------------------------------------
// Drivers
// ---------------------------------------------------------------------------

/// Flash programming routines.
pub const FLASH_DRIVER: &'static str = ";; P3.11: Flash programming routines (STM32F1-style register layout)\n\
.section .text\n\
.global flash_erase_page\n\
flash_erase_page:\n\
;; r0 = page address\n\
;; Unlock flash control register.\n\
ldr r1, =0x40022004    ; FLASH_KEYR\n\
ldr r2, =0x45670123\n\
str r2, [r1]\n\
ldr r2, =0xCDEF89AB\n\
str r2, [r1]\n\
;; Set PER (page erase) bit.\n\
ldr r1, =0x40022010    ; FLASH_CR\n\
ldr r2, [r1]\n\
orr r2, #0x2           ; PER\n\
str r2, [r1]\n\
; Write the page address to FLASH_AR.\n\
ldr r3, =0x40022014    ; FLASH_AR\n\
str r0, [r3]\n\
; Set STRT bit.\n\
ldr r2, [r1]\n\
orr r2, #0x40          ; STRT\n\
str r2, [r1]\n\
; Wait for BSY bit to clear.\n\
1:  ldr r2, =0x4002200C    ; FLASH_SR\n\
ldr r3, [r2]\n\
tst r3, #0x1           ; BSY\n\
bne 1b\n\
; Lock flash.\n\
ldr r1, =0x40022010    ; FLASH_CR\n\
ldr r2, [r1]\n\
orr r2, #0x80          ; LOCK\n\
str r2, [r1]\n\
bx lr\n\
\n\
.global flash_write\n\
flash_write:\n\
;; r0 = address, r1 = data (16-bit halfword)\n\
; Unlock flash.\n\
ldr r2, =0x40022004    ; FLASH_KEYR\n\
ldr r3, =0x45670123\n\
str r3, [r2]\n\
ldr r3, =0xCDEF89AB\n\
str r3, [r2]\n\
; Set PG (programming) bit.\n\
ldr r2, =0x40022010    ; FLASH_CR\n\
ldr r3, [r2]\n\
orr r3, #0x1           ; PG\n\
str r3, [r2]\n\
; Write halfword.\n\
strh r1, [r0]\n\
; Wait for BSY.\n\
2:  ldr r2, =0x4002200C    ; FLASH_SR\n\
ldr r3, [r2]\n\
tst r3, #0x1           ; BSY\n\
bne 2b\n\
; Lock flash.\n\
ldr r2, =0x40022010    ; FLASH_CR\n\
ldr r3, [r2]\n\
orr r3, #0x80          ; LOCK\n\
str r3, [r2]\n\
bx lr\n";

/// The UART driver.
pub const UART_DRIVER: &'static str = ";; P1.6: UART driver (STM32F1-style register layout)\n\
.section .text\n\
.global uart_init\n\
uart_init:\n\
;; r0 = base address, r1 = baud rate divisor\n\
; Set baud rate (USART_BRR).\n\
str r1, [r0, #8]\n\
; Enable UE, TE, RE in USART_CR1.\n\
ldr r2, [r0, #12]\n\
orr r2, #0x2008        ; UE | TE | RE\n\
str r2, [r0, #12]\n\
bx lr\n\
\n\
.global uart_send\n\
uart_send:\n\
;; r0 = base address, r1 = byte to send\n\
; Wait until TXE (transmit data register empty).\n\
1:  ldr r2, [r0, #4]       ; USART_SR\n\
tst r2, #0x80          ; TXE\n\
beq 1b\n\
; Write byte to DR.\n\
strb r1, [r0]\n\
bx lr\n\
\n\
.global uart_recv\n\
uart_recv:\n\
;; r0 = base address → returns byte in r0\n\
; Wait until RXNE (read data register not empty).\n\
2:  ldr r2, [r0, #4]       ; USART_SR\n\
tst r2, #0x20          ; RXNE\n\
beq 2b\n\
; Read byte from DR.\n\
ldrb r0, [r0]\n\
bx lr\n";

/// The GPIO driver.
pub const GPIO_DRIVER: &'static str = ";; P1.4: GPIO driver (STM32F1-style register layout)\n\
.section .text\n\
.global gpio_set\n\
gpio_set:\n\
;; r0 = base address, r1 = pin number\n\
; Set bit in BSRR (bit set/reset register).\n\
movs r2, #1\n\
lsls r2, r1\n\
str r2, [r0, #16]      ; GPIO_BSRR\n\
bx lr\n\
\n\
.global gpio_clear\n\
gpio_clear:\n\
;; r0 = base address, r1 = pin number\n\
; Set bit in upper 16 bits of BSRR (reset).\n\
movs r2, #1\n\
lsls r2, r1\n\
lsls r2, #16\n\
str r2, [r0, #16]      ; GPIO_BSRR\n\
bx lr\n\
\n\
.global gpio_get\n\
gpio_get:\n\
;; r0 = base address, r1 = pin number → returns 0 or 1 in r0\n\
ldr r2, [r0, #8]       ; GPIO_IDR\n\
movs r3, #1\n\
lsls r3, r1\n\
ands r0, r2, r3\n\
cbz r0, 1f\n\
movs r0, #1\n\
1:  bx lr\n";

/// The I2C driver.
pub const I2C_DRIVER: &'static str = ";; P1.7: I2C driver (STM32F1-style register layout)\n\
.section .text\n\
.global i2c_start\n\
i2c_start:\n\
;; r0 = base address\n\
; Set START bit in CR1.\n\
ldr r1, [r0, #0]\n\
orr r1, #0x100         ; START\n\
str r1, [r0, #0]\n\
bx lr\n\
\n\
.global i2c_stop\n\
i2c_stop:\n\
;; r0 = base address\n\
ldr r1, [r0, #0]\n\
orr r1, #0x200         ; STOP\n\
str r1, [r0, #0]\n\
bx lr\n\
\n\
.global i2c_send_addr\n\
i2c_send_addr:\n\
;; r0 = base, r1 = 7-bit address\n\
lsls r1, #1            ; Shift to 8-bit format\n\
strb r1, [r0, #4]      ; DR\n\
bx lr\n\
\n\
.global i2c_write_byte\n\
i2c_write_byte:\n\
;; r0 = base, r1 = byte\n\
strb r1, [r0, #4]      ; DR\n\
bx lr\n\
\n\
.global i2c_read_byte\n\
i2c_read_byte:\n\
;; r0 = base → returns byte in r0\n\
ldrb r0, [r0, #4]      ; DR\n\
bx lr\n";

/// The SPI driver.
pub const SPI_DRIVER: &'static str = ";; P1.7: SPI driver (STM32F1-style register layout)\n\
.section .text\n\
.global spi_init\n\
spi_init:\n\
;; r0 = base address\n\
; Enable SPE, MSTR in CR1.\n\
ldr r1, =0x44          ; SPE | MSTR | BR=0\n\
str r1, [r0, #0]       ; SPI_CR1\n\
bx lr\n\
\n\
.global spi_send\n\
spi_send:\n\
;; r0 = base, r1 = byte\n\
; Wait until TXE.\n\
1:  ldr r2, [r0, #4]       ; SPI_SR\n\
tst r2, #0x2           ; TXE\n\
beq 1b\n\
strh r1, [r0, #8]      ; SPI_DR\n\
bx lr\n\
\n\
.global spi_recv\n\
spi_recv:\n\
;; r0 = base → returns byte in r0\n\
; Wait until RXNE.\n\
2:  ldr r2, [r0, #4]       ; SPI_SR\n\
tst r2, #0x1           ; RXNE\n\
beq 2b\n\
ldrb r0, [r0, #8]      ; SPI_DR\n\
bx lr\n";

/// Assertion failures and log messages over UART.
pub const ASSERT_LOG_DRIVER: &'static str = ";; P4.15: Assert + log (via UART0 at 0x4000C000)\n\
.section .text\n\
.global __assert_fail\n\
__assert_fail:\n\
;; r0 = message string address\n\
; Output message via UART.\n\
ldr r1, =0x4000C000    ; UART0 base\n\
1:  ldrb r2, [r0], #1\n\
cbz r2, 2f\n\
; Wait for TXE.\n\
3:  ldr r3, [r1, #4]\n\
tst r3, #0x80\n\
beq 3b\n\
strb r2, [r1]\n\
b 1b\n\
2:  ; Infinite loop after assertion failure.\n\
b 2b\n\
\n\
.global log_message\n\
log_message:\n\
;; r0 = message string address\n\
ldr r1, =0x4000C000    ; UART0 base\n\
4:  ldrb r2, [r0], #1\n\
cbz r2, 5f\n\
6:  ldr r3, [r1, #4]\n\
tst r3, #0x80\n\
beq 6b\n\
strb r2, [r1]\n\
b 4b\n\
5:  bx lr\n";

/// Flash programming routines.
pub fn generate_flash_asm() -> (r: String)
    ensures
        r@ == FLASH_DRIVER@,
{
    text(FLASH_DRIVER)
}

/// The UART driver.
pub fn generate_uart_asm() -> (r: String)
    ensures
        r@ == UART_DRIVER@,
{
    text(UART_DRIVER)
}

/// The GPIO driver.
pub fn generate_gpio_asm() -> (r: String)
    ensures
        r@ == GPIO_DRIVER@,
{
    text(GPIO_DRIVER)
}

/// The I2C driver.
pub fn generate_i2c_asm() -> (r: String)
    ensures
        r@ == I2C_DRIVER@,
{
    text(I2C_DRIVER)
}

/// The SPI driver.
pub fn generate_spi_asm() -> (r: String)
    ensures
        r@ == SPI_DRIVER@,
{
    text(SPI_DRIVER)
}

/// Assertion failures and log messages over UART.
pub fn generate_assert_log_asm() -> (r: String)
    ensures
        r@ == ASSERT_LOG_DRIVER@,
{
    text(ASSERT_LOG_DRIVER)
}

/// The linker script of a program without a memory map.
pub const DEFAULT_LINKER_SCRIPT: &'static str = "/* Auto-generated by vredrs C* raw backend. */\nSECTIONS\n{\n  . = 0x100000;\n  .text.boot : { KEEP(*(.text.boot)) *(.text.boot.*) }\n  .isr : { KEEP(*(.isr)) *(.isr.*) }\n  .pkgmeta : { KEEP(*(.pkgmeta)) *(.pkgmeta.*) }\n  .patchmeta : { KEEP(*(.patchmeta)) *(.patchmeta.*) }\n  .text : { *(.text*) }\n  .rodata : { *(.rodata*) }\n  .data : { *(.data*) }\n  .bss : { *(.bss*) *(COMMON) }\n}\n";

/// The linker script of a program without a memory map.
pub fn default_linker_script() -> (r: String)
    ensures
        r@ == DEFAULT_LINKER_SCRIPT@,
{
    text(DEFAULT_LINKER_SCRIPT)
}

// ---------------------------------------------------------------------------
// Critical sections and the scheduler
// ---------------------------------------------------------------------------

/// What disables interrupts at the entry of a critical function.
pub open spec fn critical_entry(name: Seq<char>) -> Seq<char> {
    Seq::<char>::empty() + "    ;; @critical: disable interrupts for '"@ + name + "'\n    mrs r0, PRIMASK\n    push {r0}\n    cpsid i\n"@
}

/// What restores the interrupt state at the exit of a critical function.
pub open spec fn critical_exit(name: Seq<char>) -> Seq<char> {
    Seq::<char>::empty() + "    ;; @critical: restore interrupt state for '"@ + name + "'\n    pop {r0}\n    msr PRIMASK, r0\n"@
}

/// The entry and the exit of a critical function.
pub fn generate_critical_section_asm(name: &str) -> (r: (String, String))
    ensures
        r.0@ == critical_entry(name@),
        r.1@ == critical_exit(name@),
{
    let mut a = String::new();
    a.append("    ;; @critical: disable interrupts for '");
    a.append(name);
    a.append("'\n    mrs r0, PRIMASK\n    push {r0}\n    cpsid i\n");
    let mut b = String::new();
    b.append("    ;; @critical: restore interrupt state for '");
    b.append(name);
    b.append("'\n    pop {r0}\n    msr PRIMASK, r0\n");
    (a, b)
}

/// The tick and context-switch routines of a scheduler.
pub open spec fn scheduler_text(c: SchedulerConfig) -> Seq<char> {
    Seq::<char>::empty() + ";; Auto-generated scheduler (P2.10): tick="@ + dec(c.tick_ms as nat) + "ms max_tasks="@ + dec(c.max_tasks as nat) + " stack="@ + dec(c.stack_size as nat) + "B\n.section .text\n.global __scheduler_tick\n__scheduler_tick:\n    ldr r0, =__task_counter\n    ldr r1, [r0]\n    subs r1, #1\n    str r1, [r0]\n    cbnz r1, 1f\n    ldr r1, ="@ + dec(c.tick_ms as nat) + "\n    str r1, [r0]\n    ldr r0, =0xE000ED04\n    ldr r1, [r0]\n    orr r1, #0x10000000\n    str r1, [r0]\n1:\n    bx lr\n\n.global __pendsv_handler\n__pendsv_handler:\n    mrs r0, psp\n    subs r0, #32\n    stmia r0!, {r4-r11}\n    ldr r1, =__current_task_sp\n    str r0, [r1]\n    ldr r1, =__current_task\n    ldr r2, [r1]\n    adds r2, #1\n    ldr r3, ="@ + dec(c.max_tasks as nat) + "\n    cmp r2, r3\n    blo 2f\n    movs r2, #0\n2:\n    str r2, [r1]\n    ldr r0, =__task_sp_table\n    lsls r1, r2, #2\n    ldr r0, [r0, r1]\n    ldr r1, =__current_task_sp\n    str r0, [r1]\n    subs r0, #32\n    ldmia r0!, {r4-r11}\n    msr psp, r0\n    bx lr\n\n.section .bss\n__task_counter: .word 0\n__current_task: .word 0\n__current_task_sp: .word 0\n__task_sp_table: .skip "@ + dec(c.max_tasks.wrapping_mul(4) as nat) + "\n"@
}

/// The tick and context-switch routines of a scheduler.
pub fn generate_scheduler_asm(c: &SchedulerConfig) -> (r: String)
    ensures
        r@ == scheduler_text(*c),
{
    let mut s = String::new();
    s.append(";; Auto-generated scheduler (P2.10): tick=");
    push_dec(&mut s, c.tick_ms);
    s.append("ms max_tasks=");
    push_dec(&mut s, c.max_tasks);
    s.append(" stack=");
    push_dec(&mut s, c.stack_size);
    s.append("B\n.section .text\n.global __scheduler_tick\n__scheduler_tick:\n    ldr r0, =__task_counter\n    ldr r1, [r0]\n    subs r1, #1\n    str r1, [r0]\n    cbnz r1, 1f\n    ldr r1, =");
    push_dec(&mut s, c.tick_ms);
    s.append("\n    str r1, [r0]\n    ldr r0, =0xE000ED04\n    ldr r1, [r0]\n    orr r1, #0x10000000\n    str r1, [r0]\n1:\n    bx lr\n\n.global __pendsv_handler\n__pendsv_handler:\n    mrs r0, psp\n    subs r0, #32\n    stmia r0!, {r4-r11}\n    ldr r1, =__current_task_sp\n    str r0, [r1]\n    ldr r1, =__current_task\n    ldr r2, [r1]\n    adds r2, #1\n    ldr r3, =");
    push_dec(&mut s, c.max_tasks);
    s.append("\n    cmp r2, r3\n    blo 2f\n    movs r2, #0\n2:\n    str r2, [r1]\n    ldr r0, =__task_sp_table\n    lsls r1, r2, #2\n    ldr r0, [r0, r1]\n    ldr r1, =__current_task_sp\n    str r0, [r1]\n    subs r0, #32\n    ldmia r0!, {r4-r11}\n    msr psp, r0\n    bx lr\n\n.section .bss\n__task_counter: .word 0\n__current_task: .word 0\n__current_task_sp: .word 0\n__task_sp_table: .skip ");
    push_dec(&mut s, c.max_tasks.wrapping_mul(4));
    s.append("\n");
    s
}

// ---------------------------------------------------------------------------
// Linker scripts and vector tables
// ---------------------------------------------------------------------------

/// The text with the first `k` vector table entries, each behind `prefix`.
pub open spec fn vector_lines(out: Seq<char>, prefix: Seq<char>, vs: Seq<Vector>, k: nat) -> Seq<char>
    decreases k,
{
    if k == 0 || k > vs.len() {
        out
    } else {
        vector_lines(out, prefix, vs, (k - 1) as nat) + prefix + vs[k - 1].name + " -> "@
            + vs[k - 1].handler + "\n"@
    }
}

/// Appends the vector table entries, each behind `prefix`.
pub fn push_vector_lines(out: &mut String, prefix: &str, vs: &Vec<VectorTableEntry>)
    ensures
        final(out)@ == vector_lines(old(out)@, prefix@, vectors_of(vs@), vs@.len()),
{
    let mut k: usize = 0;
    while k < vs.len()
        invariant
            k <= vs@.len(),
            out@ == vector_lines(old(out)@, prefix@, vectors_of(vs@), k as nat),
        decreases vs@.len() - k,
    {
        out.append(prefix);
        out.append(vs[k].name.as_str());
        out.append(" -> ");
        out.append(vs[k].handler.as_str());
        out.append("\n");
        k = k + 1;
    }
}

/// A size, or else the default.
pub open spec fn size_or(n: Option<u64>, default: u64) -> u64 {
    match n {
        Some(v) => v,
        None => default,
    }
}

/// A size, or else the default.
fn size_or_default(n: Option<u64>, default: u64) -> (r: u64)
    ensures
        r == size_or(n, default),
{
    match n {
        Some(v) => v,
        None => default,
    }
}

/// The memory regions of a linker script.
#[verifier::opaque]
pub open spec fn memory_text(m: MemoryMap) -> Seq<char> {
    let o = Seq::<char>::empty() + "/* Auto-generated by vredrs C* raw backend (dynamic memory map). */\nENTRY(_start)\n\nMEMORY\n{\n    FLASH (rx)  : ORIGIN = 0x"@ + hex(m.flash_origin as nat, 8, true) + ", LENGTH = 0x"@ + hex(m.flash_length as nat, 0, true) + "\n    SRAM  (rwx) : ORIGIN = 0x"@ + hex(m.sram_origin as nat, 8, true) + ", LENGTH = 0x"@ + hex(m.sram_length as nat, 0, true) + "\n"@;
    (match (m.mmio_origin, m.mmio_length) {
        (Some(a), Some(n)) => o + "    MMIO  (rw)  : ORIGIN = 0x"@ + hex(a as nat, 8, true) + ", LENGTH = 0x"@ + hex(n as nat, 0, true) + "\n"@,
        _ => o,
    }) + "}\n\n"@
}

/// The linker script of a program with a memory map.
pub open spec fn linker_script(m: MemoryMap, stack: Option<u64>, heap: Option<u64>, vs: Seq<Vector>) -> Seq<char> {
    let st = hex(size_or(stack, 4096) as nat, 0, true);
    let hp = hex(size_or(heap, 0) as nat, 0, true);
    let o = memory_text(m) + "_stack_size = 0x"@ + st + ";\n_heap_size = 0x"@ + hp + ";\n_stack_top = ORIGIN(SRAM) + LENGTH(SRAM);\n\nSECTIONS\n{\n    .vectors ORIGIN(FLASH) :\n    {\n        KEEP(*(.vectors))\n    } > FLASH\n\n    .isr :\n    {\n        KEEP(*(.isr)) *(.isr.*)\n    } > FLASH\n\n    .text :\n    {\n        *(.text.startup) *(.text) *(.text.*) *(.rodata) *(.rodata.*)\n        . = ALIGN(4);\n    } > FLASH\n\n    _data_load = LOADADDR(.data);\n    .data : ALIGN(4)\n    {\n        _data_start = .; *(.data) *(.data.*) . = ALIGN(4); _data_end = .;\n    } > SRAM AT > FLASH\n\n    .bss : ALIGN(4)\n    {\n        _bss_start = .; *(.bss) *(.bss.*) *(COMMON) . = ALIGN(4); _bss_end = .;\n    } > SRAM\n\n    _heap_start = .;\n    _heap_end = _heap_start + 0x"@ + hp + ";\n    _stack_bottom = _stack_top - 0x"@ + st + ";\n}\n"@;
    if vs.len() > 0 {
        vector_lines(o + "\n/* Vector table entries:\n"@, " *   "@, vs, vs.len()) + " */\n"@
    } else {
        o
    }
}

/// Appends the memory regions of a linker script.
fn memory_regions(m: &MemoryMap) -> (r: String)
    ensures
        r@ == memory_text(*m),
{
    reveal(memory_text);
    let mut s = String::new();
    s.append("/* Auto-generated by vredrs C* raw backend (dynamic memory map). */\nENTRY(_start)\n\nMEMORY\n{\n    FLASH (rx)  : ORIGIN = 0x");
    push_hex(&mut s, m.flash_origin, 8, true);
    s.append(", LENGTH = 0x");
    push_hex(&mut s, m.flash_length, 0, true);
    s.append("\n    SRAM  (rwx) : ORIGIN = 0x");
    push_hex(&mut s, m.sram_origin, 8, true);
    s.append(", LENGTH = 0x");
    push_hex(&mut s, m.sram_length, 0, true);
    s.append("\n");
    match (m.mmio_origin, m.mmio_length) {
        (Some(a), Some(n)) => {
            s.append("    MMIO  (rw)  : ORIGIN = 0x");
            push_hex(&mut s, a, 8, true);
            s.append(", LENGTH = 0x");
            push_hex(&mut s, n, 0, true);
            s.append("\n");
        },
        _ => {},
    }
    s.append("}\n\n");
    s
}

/// The linker script of a program with a memory map.
pub fn generate_dynamic_linker_script(
    map: &MemoryMap,
    stack_size: Option<u64>,
    heap_size: Option<u64>,
    vector_table: &Vec<VectorTableEntry>,
) -> (r: String)
    ensures
        r@ == linker_script(*map, stack_size, heap_size, vectors_of(vector_table@)),
{
    let stack: u64 = size_or_default(stack_size, 4096);
    let heap: u64 = size_or_default(heap_size, 0);
    let mut s = memory_regions(map);
    s.append("_stack_size = 0x");
    push_hex(&mut s, stack, 0, true);
    s.append(";\n_heap_size = 0x");
    push_hex(&mut s, heap, 0, true);
    s.append(";\n_stack_top = ORIGIN(SRAM) + LENGTH(SRAM);\n\nSECTIONS\n{\n    .vectors ORIGIN(FLASH) :\n    {\n        KEEP(*(.vectors))\n    } > FLASH\n\n    .isr :\n    {\n        KEEP(*(.isr)) *(.isr.*)\n    } > FLASH\n\n    .text :\n    {\n        *(.text.startup) *(.text) *(.text.*) *(.rodata) *(.rodata.*)\n        . = ALIGN(4);\n    } > FLASH\n\n    _data_load = LOADADDR(.data);\n    .data : ALIGN(4)\n    {\n        _data_start = .; *(.data) *(.data.*) . = ALIGN(4); _data_end = .;\n    } > SRAM AT > FLASH\n\n    .bss : ALIGN(4)\n    {\n        _bss_start = .; *(.bss) *(.bss.*) *(COMMON) . = ALIGN(4); _bss_end = .;\n    } > SRAM\n\n    _heap_start = .;\n    _heap_end = _heap_start + 0x");
    push_hex(&mut s, heap, 0, true);
    s.append(";\n    _stack_bottom = _stack_top - 0x");
    push_hex(&mut s, stack, 0, true);
    s.append(";\n}\n");
    if vector_table.len() > 0 {
        s.append("\n/* Vector table entries:\n");
        push_vector_lines(&mut s, " *   ", vector_table);
        s.append(" */\n");
    }
    s
}

/// The handler of the first entry at or behind `i` with the given name, or the
/// default one.
pub open spec fn handler_of(vs: Seq<Vector>, name: Seq<char>, i: int) -> Seq<char>
    decreases vs.len() - i,
{
    if i < 0 || i >= vs.len() {
        "_default_handler"@
    } else if vs[i].name == name {
        vs[i].handler
    } else {
        handler_of(vs, name, i + 1)
    }
}

/// The handler of the first entry at or behind `i` for interrupt `n`, or the
/// default one.
pub open spec fn irq_handler(vs: Seq<Vector>, n: int, i: int) -> Seq<char>
    decreases vs.len() - i,
{
    if i < 0 || i >= vs.len() {
        "_default_handler"@
    } else if vs[i].irq_number matches Some(k) && k == n {
        vs[i].handler
    } else {
        irq_handler(vs, n, i + 1)
    }
}

/// The greatest interrupt number among the first `k` entries, at least `-1`.
pub open spec fn last_irq(vs: Seq<Vector>, k: nat) -> int
    decreases k,
{
    if k == 0 || k > vs.len() {
        -1
    } else {
        let prev = last_irq(vs, (k - 1) as nat);
        match vs[k - 1].irq_number {
            Some(n) => if n > prev {
                n as int
            } else {
                prev
            },
            None => prev,
        }
    }
}

/// The number of external interrupts in a vector table: sixteen or more.
pub open spec fn irq_count(vs: Seq<Vector>) -> int {
    let n = last_irq(vs, vs.len()) + 1;
    if n < 16 {
        16
    } else {
        n
    }
}

/// The text with the first `k` external interrupts.
pub open spec fn irq_words(out: Seq<char>, vs: Seq<Vector>, k: nat) -> Seq<char>
    decreases k,
{
    if k == 0 {
        out
    } else {
        irq_words(out, vs, (k - 1) as nat) + "    .word "@ + irq_handler(vs, k - 1, 0) + "              ; "@ + dec((16 + k - 1) as nat) + " IRQ"@ + dec((k - 1) as nat) + "\n"@
    }
}

/// The system exceptions of a vector table.
#[verifier::opaque]
pub open spec fn exception_words(vs: Seq<Vector>) -> Seq<char> {
    Seq::<char>::empty() + ";; Auto-generated interrupt vector table (P0.1)\n    .syntax unified\n    .cpu cortex-m3\n    .thumb\n\n.section .vectors, \"a\", %progbits\n.align 2\n.global __vectors\n__vectors:\n    .word _stack_top              ; 0  Initial stack pointer\n    .word "@ + handler_of(vs, "reset"@, 0) + "              ; 1  Reset\n    .word "@ + handler_of(vs, "nmi"@, 0) + "              ; 2  NMI\n    .word "@ + handler_of(vs, "hard_fault"@, 0) + "              ; 3  HardFault\n    .word _default_handler        ; 4  MemManage\n    .word _default_handler        ; 5  BusFault\n    .word _default_handler        ; 6  UsageFault\n    .word 0, 0, 0, 0              ; 7-10 Reserved\n    .word "@ + handler_of(vs, "svcall"@, 0) + "              ; 11 SVCall\n    .word _default_handler        ; 12 Debug Monitor\n    .word 0                       ; 13 Reserved\n    .word "@ + handler_of(vs, "pendsv"@, 0) + "              ; 14 PendSV\n    .word "@ + handler_of(vs, "systick"@, 0) + "              ; 15 SysTick\n"@
}

/// The vector table of a Cortex-M target.
pub open spec fn vector_table_text(vs: Seq<Vector>) -> Seq<char> {
    irq_words(exception_words(vs), vs, irq_count(vs) as nat)
        + "\n.section .text\n.global _default_handler\n_default_handler:\n    b _default_handler\n"@
}

/// The handler with the given name.
fn find_handler<'a>(vs: &'a Vec<VectorTableEntry>, name: &str) -> (r: &'a str)
    ensures
        r@ == handler_of(vectors_of(vs@), name@, 0),
{
    let mut i: usize = 0;
    while i < vs.len()
        invariant
            i <= vs@.len(),
            handler_of(vectors_of(vs@), name@, 0) == handler_of(vectors_of(vs@), name@, i as int),
        decreases vs@.len() - i,
    {
        if same(vs[i].name.as_str(), name) {
            return vs[i].handler.as_str();
        }
        i = i + 1;
    }
    "_default_handler"
}

/// The handler of interrupt `n`.
fn find_irq_handler<'a>(vs: &'a Vec<VectorTableEntry>, n: i64) -> (r: &'a str)
    ensures
        r@ == irq_handler(vectors_of(vs@), n as int, 0),
{
    let mut i: usize = 0;
    while i < vs.len()
        invariant
            i <= vs@.len(),
            irq_handler(vectors_of(vs@), n as int, 0) == irq_handler(
                vectors_of(vs@),
                n as int,
                i as int,
            ),
        decreases vs@.len() - i,
    {
        match vs[i].irq_number {
            Some(k) => {
                if k == n {
                    return vs[i].handler.as_str();
                }
            },
            None => {},
        }
        i = i + 1;
    }
    "_default_handler"
}

/// The greatest interrupt number.
fn greatest_irq(vs: &Vec<VectorTableEntry>) -> (r: i64)
    ensures
        r == last_irq(vectors_of(vs@), vs@.len()),
        r >= -1,
{
    let mut best: i64 = -1;
    let mut k: usize = 0;
    while k < vs.len()
        invariant
            k <= vs@.len(),
            best == last_irq(vectors_of(vs@), k as nat),
            best >= -1,
        decreases vs@.len() - k,
    {
        match vs[k].irq_number {
            Some(n) => {
                if n > best {
                    best = n;
                }
            },
            None => {},
        }
        k = k + 1;
    }
    best
}

/// The vector table of a Cortex-M target.
pub fn generate_vector_table_asm(entries: &Vec<VectorTableEntry>) -> (r: String)
    requires
        last_irq(vectors_of(entries@), entries@.len()) < i64::MAX - 16,
    ensures
        r@ == vector_table_text(vectors_of(entries@)),
{
    reveal(exception_words);
    let mut s = String::new();
    s.append(";; Auto-generated interrupt vector table (P0.1)\n    .syntax unified\n    .cpu cortex-m3\n    .thumb\n\n.section .vectors, \"a\", %progbits\n.align 2\n.global __vectors\n__vectors:\n    .word _stack_top              ; 0  Initial stack pointer\n    .word ");
    s.append(find_handler(entries, "reset"));
    s.append("              ; 1  Reset\n    .word ");
    s.append(find_handler(entries, "nmi"));
    s.append("              ; 2  NMI\n    .word ");
    s.append(find_handler(entries, "hard_fault"));
    s.append("              ; 3  HardFault\n    .word _default_handler        ; 4  MemManage\n    .word _default_handler        ; 5  BusFault\n    .word _default_handler        ; 6  UsageFault\n    .word 0, 0, 0, 0              ; 7-10 Reserved\n    .word ");
    s.append(find_handler(entries, "svcall"));
    s.append("              ; 11 SVCall\n    .word _default_handler        ; 12 Debug Monitor\n    .word 0                       ; 13 Reserved\n    .word ");
    s.append(find_handler(entries, "pendsv"));
    s.append("              ; 14 PendSV\n    .word ");
    s.append(find_handler(entries, "systick"));
    s.append("              ; 15 SysTick\n");
    let ghost head = s@;
    let n: i64 = greatest_irq(entries) + 1;
    let count: i64 = if n < 16 {
        16
    } else {
        n
    };
    let mut i: i64 = 0;
    while i < count
        invariant
            0 <= i <= count,
            count < i64::MAX - 15,
            s@ == irq_words(head, vectors_of(entries@), i as nat),
        decreases count - i,
    {
        s.append("    .word ");
        s.append(find_irq_handler(entries, i));
        s.append("              ; ");
        push_dec(&mut s, (16 + i) as u64);
        s.append(" IRQ");
        push_dec(&mut s, i as u64);
        s.append("\n");
        i = i + 1;
    }
    s.append(
        "\n.section .text\n.global _default_handler\n_default_handler:\n    b _default_handler\n",
    );
    s
}

/// The startup file: the vector table, or the default file where there is no
/// entry.
pub fn generate_startup_s(entries: &Vec<VectorTableEntry>, default: &str) -> (r: String)
    requires
        last_irq(vectors_of(entries@), entries@.len()) < i64::MAX - 16,
    ensures
        r@ == (if entries@.len() == 0 {
            default@
        } else {
            vector_table_text(vectors_of(entries@))
        }),
{
    if entries.len() == 0 {
        text(default)
    } else {
        generate_vector_table_asm(entries)
    }
}

} // verus!
