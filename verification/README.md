# pga

Projective geometric algebra Cl(3,0,1) (plane-based PGA) for 3D Euclidean
geometry.

- `src/` is the verified library: the algebra of the sixteen basis blades
  (bitmasks over e1, e2, e3, e0). It computes the slot and sign of every
  blade-level operation (geometric and outer products, reversal, grade
  involution, Hodge dual and its inverse, names, display order) and proves
  their laws: the product sign is the parity of the generator sort, products
  associate, a blade times its reverse is 1 (0 when null), reversal reverses
  products, the dual maps grade k to 4 - k, dualizing twice gives
  (-1)^grade, and the inverse dual undoes the dual.
- `app/` holds the 16-component `f64` multivector, motors and the
  point/line/plane toolbox, which accumulate floating-point values over the
  verified blade algebra.
- `tests/` checks the blade algebra, among others against an independent
  generator bubble-sort reference.
