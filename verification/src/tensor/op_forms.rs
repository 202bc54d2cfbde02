//! Tensor operations as text.

use crate::ir::{TypeHandle, Value};
use crate::tensor::ops::{ExtractOp, ExtractSliceOp, InsertSliceOp, ReshapeOp};
use crate::memref::slices::SliceParam;
use crate::op_text;
use crate::op_text::{Body, BodyView, Keyword, Syntax, TextOp};
use vstd::prelude::*;

verus! {

/// `tensor[indices] : type`
impl TextOp for ExtractOp {
    open spec fn form() -> Syntax {
        Syntax {
            keyword: None,
            round: false,
            apart: false,
            lists: 1,
            constants: false,
            typed: true,
        }
    }

    open spec fn has_body(&self) -> bool {
        self.op.operands@.len() >= 1
    }

    open spec fn body_view(&self) -> BodyView {
        BodyView {
            operands: self.op.operands@.take(1),
            lists: seq![op_text::as_params(self.op.operands@.skip(1))],
        }
    }

    open spec fn result_view(&self) -> Seq<TypeHandle> {
        self.op.result_types@
    }

    fn syntax() -> (r: Syntax) {
        Syntax {
            keyword: None,
            round: false,
            apart: false,
            lists: 1,
            constants: false,
            typed: true,
        }
    }

    fn is_complete(&self) -> (r: bool) {
        self.op.operands.len() >= 1
    }

    fn body(&self) -> (r: Body) {
        let list: Vec<SliceParam> = op_text::to_params(&self.op.operands, 1);
        let body = Body { operands: vec![self.op.operands[0]], lists: vec![list] };
        assert(body@.lists =~= seq![list@]);
        assert(body@ =~= self.body_view());
        body
    }

    fn from_body(body: &Body, result_type: TypeHandle) -> (r: Self) {
        assert(op_text::all_values(body@.lists[0]));
        let first: Value = body.operands[0];
        let rest: Vec<Value> = op_text::to_values(&body.lists[0]);
        let op = ExtractOp::new(result_type, first, rest);
        proof {
            assert(body@.operands =~= seq![first]);
            assert(op.op.operands@.take(1) =~= body@.operands);
            assert(op.op.operands@.skip(1) =~= rest@);
            assert(op.body_view() =~= body@);
        }
        op
    }
}

/// `source [offsets] [sizes] [steps] : type`
impl TextOp for ExtractSliceOp {
    open spec fn form() -> Syntax {
        Syntax {
            keyword: None,
            round: false,
            apart: true,
            lists: 3,
            constants: true,
            typed: true,
        }
    }

    open spec fn has_body(&self) -> bool {
        self.op.operands@.len() >= 1 && self.has_params()
    }

    open spec fn body_view(&self) -> BodyView {
        BodyView {
            operands: self.op.operands@.take(1),
            lists: seq![self.offsets(), self.sizes(), self.steps()],
        }
    }

    open spec fn result_view(&self) -> Seq<TypeHandle> {
        self.op.result_types@
    }

    fn syntax() -> (r: Syntax) {
        Syntax {
            keyword: None,
            round: false,
            apart: true,
            lists: 3,
            constants: true,
            typed: true,
        }
    }

    fn is_complete(&self) -> (r: bool) {
        match &self.slice_params {
            Some(params) => self.op.operands.len() >= 1 && params.is_within(self.op.operands.len()),
            None => false,
        }
    }

    fn body(&self) -> (r: Body) {
        let offsets: Vec<SliceParam> = self.slice_offsets();
        let sizes: Vec<SliceParam> = self.slice_sizes();
        let steps: Vec<SliceParam> = self.slice_steps();
        let body = Body {
            operands: vec![self.op.operands[0]],
            lists: vec![offsets, sizes, steps],
        };
        assert(body@.lists =~= seq![offsets@, sizes@, steps@]);
        assert(body@ =~= self.body_view());
        body
    }

    fn from_body(body: &Body, result_type: TypeHandle) -> (r: Self) {
        proof {
            assert(body@.lists[0].len() <= op_text::max_list());
            assert(body@.lists[1].len() <= op_text::max_list());
            assert(body@.lists[2].len() <= op_text::max_list());
        }
        let first: Value = body.operands[0];
        let offsets: Vec<SliceParam> = op_text::copy_params(&body.lists[0]);
        let sizes: Vec<SliceParam> = op_text::copy_params(&body.lists[1]);
        let steps: Vec<SliceParam> = op_text::copy_params(&body.lists[2]);
        let op = ExtractSliceOp::new_with_result_type(
            first,
            offsets,
            sizes,
            steps,
            result_type,
        );
        proof {
            assert(body@.operands =~= seq![first]);
            assert(op.op.operands@.take(1) =~= body@.operands);
            assert(body@.lists =~= seq![offsets@, sizes@, steps@]);
            assert(op.body_view() =~= body@);
        }
        op
    }
}

/// `source into destination [offsets] [sizes] [steps] : type`
impl TextOp for InsertSliceOp {
    open spec fn form() -> Syntax {
        Syntax {
            keyword: Some(Keyword::Into),
            round: false,
            apart: true,
            lists: 3,
            constants: true,
            typed: true,
        }
    }

    open spec fn has_body(&self) -> bool {
        self.op.operands@.len() >= 2 && self.has_params()
    }

    open spec fn body_view(&self) -> BodyView {
        BodyView {
            operands: self.op.operands@.take(2),
            lists: seq![self.offsets(), self.sizes(), self.steps()],
        }
    }

    open spec fn result_view(&self) -> Seq<TypeHandle> {
        self.op.result_types@
    }

    fn syntax() -> (r: Syntax) {
        Syntax {
            keyword: Some(Keyword::Into),
            round: false,
            apart: true,
            lists: 3,
            constants: true,
            typed: true,
        }
    }

    fn is_complete(&self) -> (r: bool) {
        match &self.slice_params {
            Some(params) => self.op.operands.len() >= 2 && params.is_within(self.op.operands.len()),
            None => false,
        }
    }

    fn body(&self) -> (r: Body) {
        let offsets: Vec<SliceParam> = self.slice_offsets();
        let sizes: Vec<SliceParam> = self.slice_sizes();
        let steps: Vec<SliceParam> = self.slice_steps();
        let body = Body {
            operands: vec![self.op.operands[0], self.op.operands[1]],
            lists: vec![offsets, sizes, steps],
        };
        assert(body@.lists =~= seq![offsets@, sizes@, steps@]);
        assert(body@ =~= self.body_view());
        body
    }

    fn from_body(body: &Body, result_type: TypeHandle) -> (r: Self) {
        proof {
            assert(body@.lists[0].len() <= op_text::max_list());
            assert(body@.lists[1].len() <= op_text::max_list());
            assert(body@.lists[2].len() <= op_text::max_list());
        }
        let first: Value = body.operands[0];
        let second: Value = body.operands[1];
        let offsets: Vec<SliceParam> = op_text::copy_params(&body.lists[0]);
        let sizes: Vec<SliceParam> = op_text::copy_params(&body.lists[1]);
        let steps: Vec<SliceParam> = op_text::copy_params(&body.lists[2]);
        let op = InsertSliceOp::new_with_result_type(
            first,
            second,
            offsets,
            sizes,
            steps,
            result_type,
        );
        proof {
            assert(body@.operands =~= seq![first, second]);
            assert(op.op.operands@.take(2) =~= body@.operands);
            assert(body@.lists =~= seq![offsets@, sizes@, steps@]);
            assert(op.body_view() =~= body@);
        }
        op
    }
}

/// `source(sizes) : type`
impl TextOp for ReshapeOp {
    open spec fn form() -> Syntax {
        Syntax {
            keyword: None,
            round: true,
            apart: false,
            lists: 1,
            constants: false,
            typed: true,
        }
    }

    open spec fn has_body(&self) -> bool {
        self.op.operands@.len() >= 1
    }

    open spec fn body_view(&self) -> BodyView {
        BodyView {
            operands: self.op.operands@.take(1),
            lists: seq![op_text::as_params(self.op.operands@.skip(1))],
        }
    }

    open spec fn result_view(&self) -> Seq<TypeHandle> {
        self.op.result_types@
    }

    fn syntax() -> (r: Syntax) {
        Syntax {
            keyword: None,
            round: true,
            apart: false,
            lists: 1,
            constants: false,
            typed: true,
        }
    }

    fn is_complete(&self) -> (r: bool) {
        self.op.operands.len() >= 1
    }

    fn body(&self) -> (r: Body) {
        let list: Vec<SliceParam> = op_text::to_params(&self.op.operands, 1);
        let body = Body { operands: vec![self.op.operands[0]], lists: vec![list] };
        assert(body@.lists =~= seq![list@]);
        assert(body@ =~= self.body_view());
        body
    }

    fn from_body(body: &Body, result_type: TypeHandle) -> (r: Self) {
        assert(op_text::all_values(body@.lists[0]));
        let first: Value = body.operands[0];
        let rest: Vec<Value> = op_text::to_values(&body.lists[0]);
        let op = ReshapeOp::new(first, rest, result_type);
        proof {
            assert(body@.operands =~= seq![first]);
            assert(op.op.operands@.take(1) =~= body@.operands);
            assert(op.op.operands@.skip(1) =~= rest@);
            assert(op.body_view() =~= body@);
        }
        op
    }
}

} // verus!
