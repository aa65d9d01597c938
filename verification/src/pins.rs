use vstd::prelude::*;

verus! {

/// The clock-line pin of one bus port instance.  Which physical line may
/// serve which instance is a static relation settled by the types that
/// implement this trait; implementations reconfigure the line for
/// open-drain operation.
pub trait PinScl<I2C>: Sized {
    /// Reconfigure the pin for open-drain operation.
    fn set_open_drain(self) -> Self;
}

/// The data-line pin of one bus port instance.
pub trait PinSda<I2C>: Sized {
    /// Reconfigure the pin for open-drain operation.
    fn set_open_drain(self) -> Self;
}

/// The collection of pins one bus port instance requires.
pub trait Pins<I2C>: Sized {
    /// Reconfigure every pin of the collection for open-drain operation.
    fn set_open_drain(self) -> Self;
}

impl<I2C, SCL: PinScl<I2C>, SDA: PinSda<I2C>> Pins<I2C> for (SCL, SDA) {
    fn set_open_drain(self) -> Self {
        let (scl, sda) = self;
        (scl.set_open_drain(), sda.set_open_drain())
    }
}

} // verus!
